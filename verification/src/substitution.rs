//! Properties of free variables and substitution on converted expressions.
use vstd::prelude::*;
use crate::closure_convert::{
    SpecCExpr, binding_names, without, free_vars, free_vars_seq, free_vars_bindings, subst,
    subst_seq, subst_bindings,
};

verus! {

/// A name is in a concatenation exactly when it is in one of the parts.
pub broadcast proof fn lemma_concat_contains(a: Seq<Seq<char>>, b: Seq<Seq<char>>, w: Seq<char>)
    ensures
        #[trigger] (a + b).contains(w) <==> a.contains(w) || b.contains(w),
{
    if a.contains(w) {
        let i = choose|i: int| 0 <= i < a.len() && a[i] == w;
        assert((a + b)[i] == w);
    }
    if b.contains(w) {
        let i = choose|i: int| 0 <= i < b.len() && b[i] == w;
        assert((a + b)[a.len() + i] == w);
    }
    if (a + b).contains(w) {
        let i = choose|i: int| 0 <= i < (a + b).len() && (a + b)[i] == w;
        if i < a.len() {
            assert(a[i] == w);
        } else {
            assert(b[i - a.len()] == w);
        }
    }
}

/// A name is left by `without` exactly when it was there and is not excluded.
pub broadcast proof fn lemma_without_contains(s: Seq<Seq<char>>, ex: Seq<Seq<char>>, w: Seq<char>)
    ensures
        #[trigger] without(s, ex).contains(w) <==> s.contains(w) && !ex.contains(w),
    decreases s.len(),
{
    if s.len() > 0 {
        lemma_without_contains(s.drop_last(), ex, w);
        assert(s =~= s.drop_last().push(s.last()));
        lemma_push_contains(s.drop_last(), s.last(), w);
        if !ex.contains(s.last()) {
            lemma_push_contains(without(s.drop_last(), ex), s.last(), w);
        }
    }
}

proof fn lemma_push_contains(s: Seq<Seq<char>>, x: Seq<char>, w: Seq<char>)
    ensures
        s.push(x).contains(w) <==> s.contains(w) || x == w,
{
    if s.contains(w) {
        let i = choose|i: int| 0 <= i < s.len() && s[i] == w;
        assert(s.push(x)[i] == w);
    }
    if x == w {
        assert(s.push(x)[s.len() as int] == w);
    }
    if s.push(x).contains(w) {
        let i = choose|i: int| 0 <= i < s.push(x).len() && s.push(x)[i] == w;
        if i < s.len() {
            assert(s[i] == w);
        }
    }
}

/// The names of the environments read by free `EnvGet` nodes of `e`: as in
/// `free_vars`, but an `Id` counts for nothing.
pub open spec fn free_env_names(e: SpecCExpr) -> Seq<Seq<char>>
    decreases e,
{
    match e {
        SpecCExpr::Binop(_, a, b) => free_env_names(*a) + free_env_names(*b),
        SpecCExpr::If(p, c, a) => free_env_names(*p) + free_env_names(*c) + free_env_names(*a),
        SpecCExpr::Let(bindings, body) => without(free_env_names(*body), binding_names(bindings)),
        SpecCExpr::Lambda(params, _, body) => without(free_env_names(*body), binding_names(params)),
        SpecCExpr::Closure(l, env) => free_env_names(*l) + free_env_names(*env),
        SpecCExpr::ClosureApp(f, args) => free_env_names(*f) + free_env_names_seq(args),
        SpecCExpr::Env(bindings) => free_env_names_bindings(bindings),
        SpecCExpr::EnvGet(env_name, _) => seq![env_name],
        SpecCExpr::Begin(es) => free_env_names_seq(es),
        SpecCExpr::SetBang(_, v) => free_env_names(*v),
        SpecCExpr::Cons(a, b) => free_env_names(*a) + free_env_names(*b),
        SpecCExpr::Car(a) => free_env_names(*a),
        SpecCExpr::Cdr(a) => free_env_names(*a),
        SpecCExpr::IsNull(a) => free_env_names(*a),
        _ => Seq::empty(),
    }
}

pub open spec fn free_env_names_seq(es: Seq<SpecCExpr>) -> Seq<Seq<char>>
    decreases es,
{
    if es.len() == 0 {
        Seq::empty()
    } else {
        free_env_names_seq(es.drop_last()) + free_env_names(es.last())
    }
}

pub open spec fn free_env_names_bindings(bs: Seq<(Seq<char>, SpecCExpr)>) -> Seq<Seq<char>>
    decreases bs,
{
    if bs.len() == 0 {
        Seq::empty()
    } else {
        free_env_names_bindings(bs.drop_last()) + free_env_names(bs.last().1)
    }
}

/// Whether a node `Id(m)` occurs anywhere in `e`.
pub open spec fn has_id(e: SpecCExpr, m: Seq<char>) -> bool
    decreases e,
{
    match e {
        SpecCExpr::Binop(_, a, b) => has_id(*a, m) || has_id(*b, m),
        SpecCExpr::If(p, c, a) => has_id(*p, m) || has_id(*c, m) || has_id(*a, m),
        SpecCExpr::Let(bindings, body) => has_id_bindings(bindings, m) || has_id(*body, m),
        SpecCExpr::Lambda(_, _, body) => has_id(*body, m),
        SpecCExpr::Closure(l, env) => has_id(*l, m) || has_id(*env, m),
        SpecCExpr::ClosureApp(f, args) => has_id(*f, m) || has_id_seq(args, m),
        SpecCExpr::Env(bindings) => has_id_bindings(bindings, m),
        SpecCExpr::Begin(es) => has_id_seq(es, m),
        SpecCExpr::SetBang(_, v) => has_id(*v, m),
        SpecCExpr::Cons(a, b) => has_id(*a, m) || has_id(*b, m),
        SpecCExpr::Car(a) => has_id(*a, m),
        SpecCExpr::Cdr(a) => has_id(*a, m),
        SpecCExpr::IsNull(a) => has_id(*a, m),
        SpecCExpr::Id(x) => x == m,
        _ => false,
    }
}

pub open spec fn has_id_seq(es: Seq<SpecCExpr>, m: Seq<char>) -> bool
    decreases es,
{
    es.len() > 0 && (has_id_seq(es.drop_last(), m) || has_id(es.last(), m))
}

pub open spec fn has_id_bindings(bs: Seq<(Seq<char>, SpecCExpr)>, m: Seq<char>) -> bool
    decreases bs,
{
    bs.len() > 0 && (has_id_bindings(bs.drop_last(), m) || has_id(bs.last().1, m))
}

/// The free variables of a concatenation of lists are those of the parts, in order.
pub proof fn free_vars_seq_concat(xs: Seq<SpecCExpr>, ys: Seq<SpecCExpr>)
    ensures
        free_vars_seq(xs + ys) == free_vars_seq(xs) + free_vars_seq(ys),
    decreases ys.len(),
{
    if ys.len() == 0 {
        assert(xs + ys =~= xs);
        assert(free_vars_seq(xs) + free_vars_seq(ys) =~= free_vars_seq(xs));
    } else {
        free_vars_seq_concat(xs, ys.drop_last());
        assert((xs + ys).drop_last() =~= xs + ys.drop_last());
        assert((xs + ys).last() == ys.last());
        assert(free_vars_seq(xs) + free_vars_seq(ys.drop_last()) + free_vars(ys.last())
            =~= free_vars_seq(xs) + (free_vars_seq(ys.drop_last()) + free_vars(ys.last())));
    }
}

/// Substitution keeps the names that bindings bind.
pub proof fn lemma_subst_bindings_names(bs: Seq<(Seq<char>, SpecCExpr)>, x: Seq<char>, r: SpecCExpr)
    ensures
        binding_names(subst_bindings(bs, x, r)) == binding_names(bs),
        subst_bindings(bs, x, r).len() == bs.len(),
{
    lemma_subst_bindings_keys(bs, x, r);
    assert(binding_names(subst_bindings(bs, x, r)) =~= binding_names(bs));
}

proof fn lemma_subst_bindings_keys(bs: Seq<(Seq<char>, SpecCExpr)>, x: Seq<char>, r: SpecCExpr)
    ensures
        subst_bindings(bs, x, r).len() == bs.len(),
        forall|i: int| 0 <= i < bs.len() ==> #[trigger] subst_bindings(bs, x, r)[i].0 == bs[i].0,
    decreases bs.len(),
{
    if bs.len() > 0 {
        lemma_subst_bindings_keys(bs.drop_last(), x, r);
    }
}

/// Replacing a name by an `Id` of that same name changes nothing.
pub proof fn subst_by_itself_is_identity(e: SpecCExpr, m: Seq<char>)
    ensures
        subst(e, m, SpecCExpr::Id(m)) == e,
    decreases e,
{
    match e {
        SpecCExpr::Binop(_, a, b) => {
            subst_by_itself_is_identity(*a, m);
            subst_by_itself_is_identity(*b, m);
        },
        SpecCExpr::If(p, c, a) => {
            subst_by_itself_is_identity(*p, m);
            subst_by_itself_is_identity(*c, m);
            subst_by_itself_is_identity(*a, m);
        },
        SpecCExpr::Let(bs, body) => {
            lemma_subst_bindings_by_itself(bs, m);
            subst_by_itself_is_identity(*body, m);
        },
        SpecCExpr::Lambda(_, _, body) => {
            subst_by_itself_is_identity(*body, m);
        },
        SpecCExpr::Closure(l, env) => {
            subst_by_itself_is_identity(*l, m);
            subst_by_itself_is_identity(*env, m);
        },
        SpecCExpr::ClosureApp(f, args) => {
            subst_by_itself_is_identity(*f, m);
            lemma_subst_seq_by_itself(args, m);
        },
        SpecCExpr::Env(bs) => {
            lemma_subst_bindings_by_itself(bs, m);
        },
        SpecCExpr::Begin(es) => {
            lemma_subst_seq_by_itself(es, m);
        },
        SpecCExpr::SetBang(_, v) => {
            subst_by_itself_is_identity(*v, m);
        },
        SpecCExpr::Cons(a, b) => {
            subst_by_itself_is_identity(*a, m);
            subst_by_itself_is_identity(*b, m);
        },
        SpecCExpr::Car(a) => {
            subst_by_itself_is_identity(*a, m);
        },
        SpecCExpr::Cdr(a) => {
            subst_by_itself_is_identity(*a, m);
        },
        SpecCExpr::IsNull(a) => {
            subst_by_itself_is_identity(*a, m);
        },
        _ => {},
    }
}

proof fn lemma_subst_seq_by_itself(es: Seq<SpecCExpr>, m: Seq<char>)
    ensures
        subst_seq(es, m, SpecCExpr::Id(m)) == es,
    decreases es,
{
    if es.len() > 0 {
        lemma_subst_seq_by_itself(es.drop_last(), m);
        subst_by_itself_is_identity(es.last(), m);
        assert(subst_seq(es, m, SpecCExpr::Id(m)) =~= es);
    } else {
        assert(subst_seq(es, m, SpecCExpr::Id(m)) =~= es);
    }
}

proof fn lemma_subst_bindings_by_itself(bs: Seq<(Seq<char>, SpecCExpr)>, m: Seq<char>)
    ensures
        subst_bindings(bs, m, SpecCExpr::Id(m)) == bs,
    decreases bs,
{
    if bs.len() > 0 {
        lemma_subst_bindings_by_itself(bs.drop_last(), m);
        subst_by_itself_is_identity(bs.last().1, m);
        assert(subst_bindings(bs, m, SpecCExpr::Id(m)) =~= bs);
    } else {
        assert(subst_bindings(bs, m, SpecCExpr::Id(m)) =~= bs);
    }
}

/// Where no `Id(m)` occurs, substituting for `m` changes nothing.
pub proof fn subst_without_occurrence_is_identity(e: SpecCExpr, m: Seq<char>, r: SpecCExpr)
    requires
        !has_id(e, m),
    ensures
        subst(e, m, r) == e,
    decreases e,
{
    match e {
        SpecCExpr::Binop(_, a, b) => {
            subst_without_occurrence_is_identity(*a, m, r);
            subst_without_occurrence_is_identity(*b, m, r);
        },
        SpecCExpr::If(p, c, a) => {
            subst_without_occurrence_is_identity(*p, m, r);
            subst_without_occurrence_is_identity(*c, m, r);
            subst_without_occurrence_is_identity(*a, m, r);
        },
        SpecCExpr::Let(bs, body) => {
            lemma_subst_bindings_without_occurrence(bs, m, r);
            subst_without_occurrence_is_identity(*body, m, r);
        },
        SpecCExpr::Lambda(_, _, body) => {
            subst_without_occurrence_is_identity(*body, m, r);
        },
        SpecCExpr::Closure(l, env) => {
            subst_without_occurrence_is_identity(*l, m, r);
            subst_without_occurrence_is_identity(*env, m, r);
        },
        SpecCExpr::ClosureApp(f, args) => {
            subst_without_occurrence_is_identity(*f, m, r);
            lemma_subst_seq_without_occurrence(args, m, r);
        },
        SpecCExpr::Env(bs) => {
            lemma_subst_bindings_without_occurrence(bs, m, r);
        },
        SpecCExpr::Begin(es) => {
            lemma_subst_seq_without_occurrence(es, m, r);
        },
        SpecCExpr::SetBang(_, v) => {
            subst_without_occurrence_is_identity(*v, m, r);
        },
        SpecCExpr::Cons(a, b) => {
            subst_without_occurrence_is_identity(*a, m, r);
            subst_without_occurrence_is_identity(*b, m, r);
        },
        SpecCExpr::Car(a) => {
            subst_without_occurrence_is_identity(*a, m, r);
        },
        SpecCExpr::Cdr(a) => {
            subst_without_occurrence_is_identity(*a, m, r);
        },
        SpecCExpr::IsNull(a) => {
            subst_without_occurrence_is_identity(*a, m, r);
        },
        _ => {},
    }
}

proof fn lemma_subst_seq_without_occurrence(es: Seq<SpecCExpr>, m: Seq<char>, r: SpecCExpr)
    requires
        !has_id_seq(es, m),
    ensures
        subst_seq(es, m, r) == es,
    decreases es,
{
    if es.len() > 0 {
        lemma_subst_seq_without_occurrence(es.drop_last(), m, r);
        subst_without_occurrence_is_identity(es.last(), m, r);
        assert(subst_seq(es, m, r) =~= es);
    } else {
        assert(subst_seq(es, m, r) =~= es);
    }
}

proof fn lemma_subst_bindings_without_occurrence(bs: Seq<(Seq<char>, SpecCExpr)>, m: Seq<char>, r: SpecCExpr)
    requires
        !has_id_bindings(bs, m),
    ensures
        subst_bindings(bs, m, r) == bs,
    decreases bs,
{
    if bs.len() > 0 {
        lemma_subst_bindings_without_occurrence(bs.drop_last(), m, r);
        subst_without_occurrence_is_identity(bs.last().1, m, r);
        assert(subst_bindings(bs, m, r) =~= bs);
    } else {
        assert(subst_bindings(bs, m, r) =~= bs);
    }
}

/// Substituting a second time changes nothing, where the replacement holds no `Id(m)`.
pub proof fn subst_twice_is_subst_once(e: SpecCExpr, m: Seq<char>, r: SpecCExpr)
    requires
        !has_id(r, m),
    ensures
        subst(subst(e, m, r), m, r) == subst(e, m, r),
    decreases e,
{
    match e {
        SpecCExpr::Binop(_, a, b) => {
            subst_twice_is_subst_once(*a, m, r);
            subst_twice_is_subst_once(*b, m, r);
        },
        SpecCExpr::If(p, c, a) => {
            subst_twice_is_subst_once(*p, m, r);
            subst_twice_is_subst_once(*c, m, r);
            subst_twice_is_subst_once(*a, m, r);
        },
        SpecCExpr::Let(bs, body) => {
            lemma_subst_bindings_twice(bs, m, r);
            subst_twice_is_subst_once(*body, m, r);
        },
        SpecCExpr::Lambda(_, _, body) => {
            subst_twice_is_subst_once(*body, m, r);
        },
        SpecCExpr::Closure(l, env) => {
            subst_twice_is_subst_once(*l, m, r);
            subst_twice_is_subst_once(*env, m, r);
        },
        SpecCExpr::ClosureApp(f, args) => {
            subst_twice_is_subst_once(*f, m, r);
            lemma_subst_seq_twice(args, m, r);
        },
        SpecCExpr::Env(bs) => {
            lemma_subst_bindings_twice(bs, m, r);
        },
        SpecCExpr::Begin(es) => {
            lemma_subst_seq_twice(es, m, r);
        },
        SpecCExpr::SetBang(_, v) => {
            subst_twice_is_subst_once(*v, m, r);
        },
        SpecCExpr::Cons(a, b) => {
            subst_twice_is_subst_once(*a, m, r);
            subst_twice_is_subst_once(*b, m, r);
        },
        SpecCExpr::Car(a) => {
            subst_twice_is_subst_once(*a, m, r);
        },
        SpecCExpr::Cdr(a) => {
            subst_twice_is_subst_once(*a, m, r);
        },
        SpecCExpr::IsNull(a) => {
            subst_twice_is_subst_once(*a, m, r);
        },
        SpecCExpr::Id(y) => {
            if y == m {
                subst_without_occurrence_is_identity(r, m, r);
            }
        },
        _ => {},
    }
}

proof fn lemma_subst_seq_twice(es: Seq<SpecCExpr>, m: Seq<char>, r: SpecCExpr)
    requires
        !has_id(r, m),
    ensures
        subst_seq(subst_seq(es, m, r), m, r) == subst_seq(es, m, r),
    decreases es,
{
    if es.len() > 0 {
        lemma_subst_seq_twice(es.drop_last(), m, r);
        subst_twice_is_subst_once(es.last(), m, r);
        let once = subst_seq(es, m, r);
        assert(once.drop_last() =~= subst_seq(es.drop_last(), m, r));
        assert(subst_seq(once, m, r) =~= once);
    }
}

proof fn lemma_subst_bindings_twice(bs: Seq<(Seq<char>, SpecCExpr)>, m: Seq<char>, r: SpecCExpr)
    requires
        !has_id(r, m),
    ensures
        subst_bindings(subst_bindings(bs, m, r), m, r) == subst_bindings(bs, m, r),
    decreases bs,
{
    if bs.len() > 0 {
        lemma_subst_bindings_twice(bs.drop_last(), m, r);
        subst_twice_is_subst_once(bs.last().1, m, r);
        let once = subst_bindings(bs, m, r);
        assert(once.drop_last() =~= subst_bindings(bs.drop_last(), m, r));
        assert(subst_bindings(once, m, r) =~= once);
    }
}

/// After `r` is put in for `x`, every free variable was free before and is not `x`
/// (unless `x` is also read as a free environment name), or is free in `r`; every
/// free environment name was one before or is one of `r`.
pub proof fn subst_free_vars(e: SpecCExpr, x: Seq<char>, r: SpecCExpr)
    ensures
        forall|w: Seq<char>|
            #[trigger] free_vars(subst(e, x, r)).contains(w) ==> (free_vars(e).contains(w) && (w
                != x || free_env_names(e).contains(x))) || free_vars(r).contains(w),
        forall|w: Seq<char>|
            #[trigger] free_env_names(subst(e, x, r)).contains(w) ==> free_env_names(e).contains(w)
                || free_env_names(r).contains(w),
{
    assert forall|w: Seq<char>| #[trigger] free_vars(subst(e, x, r)).contains(w) implies (free_vars(
        e,
    ).contains(w) && (w != x || free_env_names(e).contains(x))) || free_vars(r).contains(w) by {
        lemma_subst_free_at(e, x, r, w);
    }
    assert forall|w: Seq<char>| #[trigger] free_env_names(subst(e, x, r)).contains(w) implies free_env_names(
        e,
    ).contains(w) || free_env_names(r).contains(w) by {
        lemma_subst_free_at(e, x, r, w);
    }
}

proof fn lemma_concat2(a: Seq<Seq<char>>, b: Seq<Seq<char>>, c: Seq<Seq<char>>, d: Seq<Seq<char>>, w: Seq<char>)
    ensures
        (a + b).contains(w) <==> a.contains(w) || b.contains(w),
        (c + d).contains(w) <==> c.contains(w) || d.contains(w),
{
    lemma_concat_contains(a, b, w);
    lemma_concat_contains(c, d, w);
}

proof fn lemma_subst_free_at(e: SpecCExpr, x: Seq<char>, r: SpecCExpr, w: Seq<char>)
    ensures
        free_vars(subst(e, x, r)).contains(w) ==> (free_vars(e).contains(w) && (w != x
            || free_env_names(e).contains(x))) || free_vars(r).contains(w),
        free_env_names(subst(e, x, r)).contains(w) ==> free_env_names(e).contains(w)
            || free_env_names(r).contains(w),
    decreases e,
{
    match e {
        SpecCExpr::Binop(_, a, b) => {
            lemma_subst_free_at(*a, x, r, w);
            lemma_subst_free_at(*b, x, r, w);
            lemma_concat2(free_vars(subst(*a, x, r)), free_vars(subst(*b, x, r)), free_vars(*a), free_vars(*b), w);
            lemma_concat2(free_env_names(subst(*a, x, r)), free_env_names(subst(*b, x, r)), free_env_names(*a), free_env_names(*b), w);
        },
        SpecCExpr::Cons(a, b) => {
            lemma_subst_free_at(*a, x, r, w);
            lemma_subst_free_at(*b, x, r, w);
            lemma_concat2(free_vars(subst(*a, x, r)), free_vars(subst(*b, x, r)), free_vars(*a), free_vars(*b), w);
            lemma_concat2(free_env_names(subst(*a, x, r)), free_env_names(subst(*b, x, r)), free_env_names(*a), free_env_names(*b), w);
        },
        SpecCExpr::Closure(a, b) => {
            lemma_subst_free_at(*a, x, r, w);
            lemma_subst_free_at(*b, x, r, w);
            lemma_concat2(free_vars(subst(*a, x, r)), free_vars(subst(*b, x, r)), free_vars(*a), free_vars(*b), w);
            lemma_concat2(free_env_names(subst(*a, x, r)), free_env_names(subst(*b, x, r)), free_env_names(*a), free_env_names(*b), w);
        },
        SpecCExpr::If(p, c, a) => {
            lemma_subst_free_at(*p, x, r, w);
            lemma_subst_free_at(*c, x, r, w);
            lemma_subst_free_at(*a, x, r, w);
            let (sp, sc, sa) = (subst(*p, x, r), subst(*c, x, r), subst(*a, x, r));
            lemma_concat2(free_vars(sp), free_vars(sc), free_vars(*p), free_vars(*c), w);
            lemma_concat2(free_vars(sp) + free_vars(sc), free_vars(sa), free_vars(*p) + free_vars(*c), free_vars(*a), w);
            lemma_concat2(free_env_names(sp), free_env_names(sc), free_env_names(*p), free_env_names(*c), w);
            lemma_concat2(free_env_names(sp) + free_env_names(sc), free_env_names(sa), free_env_names(*p) + free_env_names(*c), free_env_names(*a), w);
        },
        SpecCExpr::Let(bs, body) => {
            lemma_subst_bindings_names(bs, x, r);
            lemma_subst_free_at(*body, x, r, w);
            let names = binding_names(bs);
            let sb = subst(*body, x, r);
            lemma_without_contains(free_vars(sb), names, w);
            lemma_without_contains(free_vars(*body), names, w);
            lemma_without_contains(free_env_names(sb), names, w);
            lemma_without_contains(free_env_names(*body), names, w);
        },
        SpecCExpr::Lambda(ps, _, body) => {
            lemma_subst_free_at(*body, x, r, w);
            let names = binding_names(ps);
            let sb = subst(*body, x, r);
            lemma_without_contains(free_vars(sb), names, w);
            lemma_without_contains(free_vars(*body), names, w);
            lemma_without_contains(free_env_names(sb), names, w);
            lemma_without_contains(free_env_names(*body), names, w);
        },
        SpecCExpr::ClosureApp(f, args) => {
            lemma_subst_free_at(*f, x, r, w);
            lemma_subst_seq_free_at(args, x, r, w);
            let (sf, sa) = (subst(*f, x, r), subst_seq(args, x, r));
            lemma_concat2(free_vars(sf), free_vars_seq(sa), free_vars(*f), free_vars_seq(args), w);
            lemma_concat2(free_env_names(sf), free_env_names_seq(sa), free_env_names(*f), free_env_names_seq(args), w);
        },
        SpecCExpr::Env(bs) => {
            lemma_subst_bindings_free_at(bs, x, r, w);
        },
        SpecCExpr::Begin(es) => {
            lemma_subst_seq_free_at(es, x, r, w);
        },
        SpecCExpr::SetBang(_, v) => {
            lemma_subst_free_at(*v, x, r, w);
        },
        SpecCExpr::Car(a) => {
            lemma_subst_free_at(*a, x, r, w);
        },
        SpecCExpr::Cdr(a) => {
            lemma_subst_free_at(*a, x, r, w);
        },
        SpecCExpr::IsNull(a) => {
            lemma_subst_free_at(*a, x, r, w);
        },
        SpecCExpr::EnvGet(n, _) => {
            lemma_push_contains(Seq::empty(), n, w);
            assert(seq![n] =~= Seq::<Seq<char>>::empty().push(n));
        },
        SpecCExpr::Id(y) => {
            lemma_push_contains(Seq::empty(), y, w);
            assert(seq![y] =~= Seq::<Seq<char>>::empty().push(y));
        },
        _ => {},
    }
}

proof fn lemma_subst_seq_free_at(es: Seq<SpecCExpr>, x: Seq<char>, r: SpecCExpr, w: Seq<char>)
    ensures
        free_vars_seq(subst_seq(es, x, r)).contains(w) ==> (free_vars_seq(es).contains(w) && (w != x
            || free_env_names_seq(es).contains(x))) || free_vars(r).contains(w),
        free_env_names_seq(subst_seq(es, x, r)).contains(w) ==> free_env_names_seq(es).contains(w)
            || free_env_names(r).contains(w),
    decreases es,
{
    if es.len() > 0 {
        lemma_subst_seq_free_at(es.drop_last(), x, r, w);
        lemma_subst_free_at(es.last(), x, r, w);
        let s = subst_seq(es, x, r);
        assert(s.drop_last() =~= subst_seq(es.drop_last(), x, r));
        let (s1, s2) = (subst_seq(es.drop_last(), x, r), subst(es.last(), x, r));
        lemma_concat2(free_vars_seq(s1), free_vars(s2), free_vars_seq(es.drop_last()), free_vars(es.last()), w);
        lemma_concat2(free_env_names_seq(s1), free_env_names(s2), free_env_names_seq(es.drop_last()), free_env_names(es.last()), w);
    }
}

proof fn lemma_subst_bindings_free_at(bs: Seq<(Seq<char>, SpecCExpr)>, x: Seq<char>, r: SpecCExpr, w: Seq<char>)
    ensures
        free_vars_bindings(subst_bindings(bs, x, r)).contains(w) ==> (free_vars_bindings(bs).contains(w)
            && (w != x || free_env_names_bindings(bs).contains(x))) || free_vars(r).contains(w),
        free_env_names_bindings(subst_bindings(bs, x, r)).contains(w) ==> free_env_names_bindings(
            bs,
        ).contains(w) || free_env_names(r).contains(w),
    decreases bs,
{
    if bs.len() > 0 {
        lemma_subst_bindings_free_at(bs.drop_last(), x, r, w);
        lemma_subst_free_at(bs.last().1, x, r, w);
        let s = subst_bindings(bs, x, r);
        assert(s.drop_last() =~= subst_bindings(bs.drop_last(), x, r));
        let (s1, s2) = (subst_bindings(bs.drop_last(), x, r), subst(bs.last().1, x, r));
        lemma_concat2(free_vars_bindings(s1), free_vars(s2), free_vars_bindings(bs.drop_last()), free_vars(bs.last().1), w);
        lemma_concat2(free_env_names_bindings(s1), free_env_names(s2), free_env_names_bindings(bs.drop_last()), free_env_names(bs.last().1), w);
    }
}

/// After `r` is put in for `m`, `m` is no longer free, provided it is not free in
/// `r` and not read as a free environment name of `e`.
pub proof fn subst_removes_free_name(e: SpecCExpr, m: Seq<char>, r: SpecCExpr)
    requires
        !free_vars(r).contains(m),
        !free_env_names(e).contains(m),
    ensures
        !free_vars(subst(e, m, r)).contains(m),
{
    subst_free_vars(e, m, r);
}

/// The free variables of an environment binding each of `vars` to itself are `vars`.
pub proof fn lemma_env_bindings_free_vars(vars: Seq<Seq<char>>)
    ensures
        free_vars_bindings(crate::closure_convert::env_bindings(vars)) == vars,
        free_env_names_bindings(crate::closure_convert::env_bindings(vars)).len() == 0,
    decreases vars.len(),
{
    let eb = crate::closure_convert::env_bindings(vars);
    if vars.len() > 0 {
        lemma_env_bindings_free_vars(vars.drop_last());
        assert(eb.drop_last() =~= crate::closure_convert::env_bindings(vars.drop_last()));
        assert(eb.last() == (vars.last(), SpecCExpr::Id(vars.last())));
        assert(free_vars(SpecCExpr::Id(vars.last())) == seq![vars.last()]);
        assert(free_env_names(SpecCExpr::Id(vars.last())).len() == 0);
        assert(vars =~= vars.drop_last() + seq![vars.last()]);
    } else {
        assert(vars =~= Seq::<Seq<char>>::empty());
    }
}

/// Replacing each of `vars` by its read from the environment `name`, in a body that
/// reads no free environment: afterwards a free variable is one of the body that is
/// not in `vars`, or `name`; and `name` is the only free environment name.
pub proof fn subst_all_free_vars(body: SpecCExpr, vars: Seq<Seq<char>>, name: Seq<char>)
    requires
        free_env_names(body).len() == 0,
    ensures
        forall|w: Seq<char>|
            #[trigger] free_vars(crate::closure_convert::subst_all(body, vars, name)).contains(w)
                ==> (free_vars(body).contains(w) && !vars.contains(w)) || w == name,
        forall|w: Seq<char>|
            #[trigger] free_env_names(crate::closure_convert::subst_all(body, vars, name)).contains(w)
                ==> w == name,
{
    assert forall|w: Seq<char>|
        #[trigger] free_vars(crate::closure_convert::subst_all(body, vars, name)).contains(w) implies (
    free_vars(body).contains(w) && !vars.contains(w)) || w == name by {
        lemma_subst_all_free_at(body, vars, name, w);
    }
    assert forall|w: Seq<char>|
        #[trigger] free_env_names(crate::closure_convert::subst_all(body, vars, name)).contains(
            w,
        ) implies w == name by {
        lemma_subst_all_free_at(body, vars, name, w);
    }
}

proof fn lemma_subst_all_free_at(body: SpecCExpr, vars: Seq<Seq<char>>, name: Seq<char>, w: Seq<char>)
    requires
        free_env_names(body).len() == 0,
    ensures
        free_vars(crate::closure_convert::subst_all(body, vars, name)).contains(w) ==> (free_vars(
            body,
        ).contains(w) && !vars.contains(w)) || w == name,
        free_env_names(crate::closure_convert::subst_all(body, vars, name)).contains(w) ==> w == name,
    decreases vars.len(),
{
    if vars.len() == 0 {
        assert(!free_env_names(body).contains(w));
    } else {
        let x = vars.last();
        let prev = crate::closure_convert::subst_all(body, vars.drop_last(), name);
        let r = SpecCExpr::EnvGet(name, x);
        lemma_subst_all_free_at(body, vars.drop_last(), name, w);
        lemma_subst_all_free_at(body, vars.drop_last(), name, x);
        lemma_subst_free_at(prev, x, r, w);
        assert(vars =~= vars.drop_last().push(x));
        lemma_push_contains(vars.drop_last(), x, w);
        lemma_push_contains(Seq::empty(), name, w);
        assert(seq![name] =~= Seq::<Seq<char>>::empty().push(name));
    }
}

} // verus!
