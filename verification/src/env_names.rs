//! The environment names that one closure conversion hands out.
use vstd::prelude::*;
use crate::common::{SpecType, SpecExpr};
use crate::gensym::{env_name, next_count, lemma_env_names_distinct};
use crate::closure_convert::{
    SpecCExpr, cc_spec, cc_seq_spec, cc_bindings_spec, subst, subst_seq, subst_bindings, subst_all,
    env_bindings, closure_of, free_vars_lambda,
};

verus! {

/// The number of names that converting `e` draws: converting a lambda draws one
/// name and converts its body twice.
pub open spec fn draws(e: SpecExpr) -> nat
    decreases e,
{
    match e {
        SpecExpr::Binop(_, a, b) => draws(*a) + draws(*b),
        SpecExpr::If(p, t, a) => draws(*p) + draws(*t) + draws(*a),
        SpecExpr::Let(bs, body) => draws_bindings(bs) + draws(*body),
        SpecExpr::Lambda(_, _, body) => 2 * draws(*body) + 1,
        SpecExpr::Begin(es) => draws_seq(es),
        SpecExpr::SetBang(_, v) => draws(*v),
        SpecExpr::Cons(a, b) => draws(*a) + draws(*b),
        SpecExpr::Car(a) => draws(*a),
        SpecExpr::Cdr(a) => draws(*a),
        SpecExpr::IsNull(a) => draws(*a),
        SpecExpr::FnApp(f, args) => draws(*f) + draws_seq(args),
        _ => 0,
    }
}

pub open spec fn draws_seq(es: Seq<SpecExpr>) -> nat
    decreases es,
{
    if es.len() == 0 {
        0
    } else {
        draws_seq(es.drop_last()) + draws(es.last())
    }
}

pub open spec fn draws_bindings(bs: Seq<(Seq<char>, SpecExpr)>) -> nat
    decreases bs,
{
    if bs.len() == 0 {
        0
    } else {
        draws_bindings(bs.drop_last()) + draws(bs.last().1)
    }
}

/// The first parameter of every lambda in `c`, in order: for converted expressions,
/// the environment names.
pub open spec fn env_params(c: SpecCExpr) -> Seq<Seq<char>>
    decreases c,
{
    match c {
        SpecCExpr::Binop(_, a, b) => env_params(*a) + env_params(*b),
        SpecCExpr::If(p, t, a) => env_params(*p) + env_params(*t) + env_params(*a),
        SpecCExpr::Let(bs, body) => env_params_bindings(bs) + env_params(*body),
        SpecCExpr::Lambda(qs, _, body) => if qs.len() > 0 {
            seq![qs[0].0] + env_params(*body)
        } else {
            env_params(*body)
        },
        SpecCExpr::Closure(l, env) => env_params(*l) + env_params(*env),
        SpecCExpr::ClosureApp(f, args) => env_params(*f) + env_params_seq(args),
        SpecCExpr::Env(bs) => env_params_bindings(bs),
        SpecCExpr::Begin(es) => env_params_seq(es),
        SpecCExpr::SetBang(_, v) => env_params(*v),
        SpecCExpr::Cons(a, b) => env_params(*a) + env_params(*b),
        SpecCExpr::Car(a) => env_params(*a),
        SpecCExpr::Cdr(a) => env_params(*a),
        SpecCExpr::IsNull(a) => env_params(*a),
        _ => Seq::empty(),
    }
}

pub open spec fn env_params_seq(es: Seq<SpecCExpr>) -> Seq<Seq<char>>
    decreases es,
{
    if es.len() == 0 {
        Seq::empty()
    } else {
        env_params_seq(es.drop_last()) + env_params(es.last())
    }
}

pub open spec fn env_params_bindings(bs: Seq<(Seq<char>, SpecCExpr)>) -> Seq<Seq<char>>
    decreases bs,
{
    if bs.len() == 0 {
        Seq::empty()
    } else {
        env_params_bindings(bs.drop_last()) + env_params(bs.last().1)
    }
}

/// Whether `w` is the name drawn at some counter value in `[lo, hi)`.
pub open spec fn drawn_in(w: Seq<char>, lo: int, hi: int) -> bool {
    exists|k: u64| lo <= k < hi && #[trigger] env_name(k) == w
}

/// Whether every name of `s` was drawn at a counter value in `[lo, hi)`.
pub open spec fn all_drawn_in(s: Seq<Seq<char>>, lo: int, hi: int) -> bool {
    forall|i: int| 0 <= i < s.len() ==> drawn_in(#[trigger] s[i], lo, hi)
}

/// Two lists of names, each without repetition and drawn from disjoint ranges of
/// counter values, make together a list without repetition drawn from a range
/// holding both.
proof fn lemma_concat_drawn(
    s1: Seq<Seq<char>>,
    a1: int,
    b1: int,
    s2: Seq<Seq<char>>,
    a2: int,
    b2: int,
    lo: int,
    hi: int,
)
    requires
        all_drawn_in(s1, a1, b1),
        all_drawn_in(s2, a2, b2),
        s1.no_duplicates(),
        s2.no_duplicates(),
        b1 <= a2 || b2 <= a1,
        lo <= a1,
        lo <= a2,
        b1 <= hi,
        b2 <= hi,
    ensures
        all_drawn_in(s1 + s2, lo, hi),
        (s1 + s2).no_duplicates(),
{
    let s = s1 + s2;
    assert forall|i: int| 0 <= i < s.len() implies drawn_in(#[trigger] s[i], lo, hi) by {
        if i < s1.len() {
            assert(drawn_in(s1[i], a1, b1));
            let k = choose|k: u64| a1 <= k < b1 && #[trigger] env_name(k) == s1[i];
            assert(env_name(k) == s[i]);
        } else {
            assert(drawn_in(s2[i - s1.len()], a2, b2));
            let k = choose|k: u64| a2 <= k < b2 && #[trigger] env_name(k) == s2[i - s1.len()];
            assert(env_name(k) == s[i]);
        }
    }
    assert forall|i: int, j: int| 0 <= i < s.len() && 0 <= j < s.len() && i != j implies s[i] != s[j] by {
        if i < s1.len() && j < s1.len() {
        } else if i >= s1.len() && j >= s1.len() {
            assert(s[i] == s2[i - s1.len()]);
            assert(s[j] == s2[j - s1.len()]);
        } else {
            let (p, q) = if i < s1.len() { (i, j - s1.len()) } else { (j, i - s1.len()) };
            assert(drawn_in(s1[p], a1, b1));
            assert(drawn_in(s2[q], a2, b2));
            let k1 = choose|k: u64| a1 <= k < b1 && #[trigger] env_name(k) == s1[p];
            let k2 = choose|k: u64| a2 <= k < b2 && #[trigger] env_name(k) == s2[q];
            lemma_env_names_distinct(k1, k2);
        }
    }
}

proof fn lemma_empty_drawn(lo: int, hi: int)
    ensures
        all_drawn_in(Seq::empty(), lo, hi),
        Seq::<Seq<char>>::empty().no_duplicates(),
{
}

/// Substitution keeps the parameters of lambdas, where the replacement has no lambda.
proof fn lemma_subst_env_params(c: SpecCExpr, x: Seq<char>, r: SpecCExpr)
    requires
        env_params(r).len() == 0,
    ensures
        env_params(subst(c, x, r)) == env_params(c),
    decreases c,
{
    match c {
        SpecCExpr::Binop(_, a, b) => {
            lemma_subst_env_params(*a, x, r);
            lemma_subst_env_params(*b, x, r);
        },
        SpecCExpr::Cons(a, b) => {
            lemma_subst_env_params(*a, x, r);
            lemma_subst_env_params(*b, x, r);
        },
        SpecCExpr::Closure(a, b) => {
            lemma_subst_env_params(*a, x, r);
            lemma_subst_env_params(*b, x, r);
        },
        SpecCExpr::If(p, t, a) => {
            lemma_subst_env_params(*p, x, r);
            lemma_subst_env_params(*t, x, r);
            lemma_subst_env_params(*a, x, r);
        },
        SpecCExpr::Let(bs, body) => {
            lemma_subst_bindings_env_params(bs, x, r);
            lemma_subst_env_params(*body, x, r);
        },
        SpecCExpr::Lambda(_, _, body) => {
            lemma_subst_env_params(*body, x, r);
        },
        SpecCExpr::ClosureApp(f, args) => {
            lemma_subst_env_params(*f, x, r);
            lemma_subst_seq_env_params(args, x, r);
        },
        SpecCExpr::Env(bs) => {
            lemma_subst_bindings_env_params(bs, x, r);
        },
        SpecCExpr::Begin(es) => {
            lemma_subst_seq_env_params(es, x, r);
        },
        SpecCExpr::SetBang(_, v) => {
            lemma_subst_env_params(*v, x, r);
        },
        SpecCExpr::Car(a) => {
            lemma_subst_env_params(*a, x, r);
        },
        SpecCExpr::Cdr(a) => {
            lemma_subst_env_params(*a, x, r);
        },
        SpecCExpr::IsNull(a) => {
            lemma_subst_env_params(*a, x, r);
        },
        SpecCExpr::Id(_) => {
            assert(env_params(r) =~= env_params(c));
        },
        _ => {},
    }
}

proof fn lemma_subst_seq_env_params(es: Seq<SpecCExpr>, x: Seq<char>, r: SpecCExpr)
    requires
        env_params(r).len() == 0,
    ensures
        env_params_seq(subst_seq(es, x, r)) == env_params_seq(es),
    decreases es,
{
    if es.len() > 0 {
        lemma_subst_seq_env_params(es.drop_last(), x, r);
        lemma_subst_env_params(es.last(), x, r);
        assert(subst_seq(es, x, r).drop_last() =~= subst_seq(es.drop_last(), x, r));
    }
}

proof fn lemma_subst_bindings_env_params(bs: Seq<(Seq<char>, SpecCExpr)>, x: Seq<char>, r: SpecCExpr)
    requires
        env_params(r).len() == 0,
    ensures
        env_params_bindings(subst_bindings(bs, x, r)) == env_params_bindings(bs),
    decreases bs,
{
    if bs.len() > 0 {
        lemma_subst_bindings_env_params(bs.drop_last(), x, r);
        lemma_subst_env_params(bs.last().1, x, r);
        assert(subst_bindings(bs, x, r).drop_last() =~= subst_bindings(bs.drop_last(), x, r));
    }
}

proof fn lemma_subst_all_env_params(c: SpecCExpr, vars: Seq<Seq<char>>, name: Seq<char>)
    ensures
        env_params(subst_all(c, vars, name)) == env_params(c),
    decreases vars.len(),
{
    if vars.len() > 0 {
        lemma_subst_all_env_params(c, vars.drop_last(), name);
        let r = SpecCExpr::EnvGet(name, vars.last());
        assert(env_params(r).len() == 0);
        lemma_subst_env_params(subst_all(c, vars.drop_last(), name), vars.last(), r);
    }
}

proof fn lemma_env_bindings_params(vars: Seq<Seq<char>>)
    ensures
        env_params_bindings(env_bindings(vars)).len() == 0,
    decreases vars.len(),
{
    if vars.len() > 0 {
        lemma_env_bindings_params(vars.drop_last());
        assert(env_bindings(vars).drop_last() =~= env_bindings(vars.drop_last()));
        assert(env_bindings(vars).last() == (vars.last(), SpecCExpr::Id(vars.last())));
        assert(env_params(SpecCExpr::Id(vars.last())).len() == 0);
    } else {
        assert(env_bindings(vars).len() == 0);
    }
}

/// What converting `e` from counter `n` draws, when the counter does not wrap: the
/// counter moves on by `draws(e)`, and the environment names in the result are
/// distinct names drawn at counter values from `n` on, below the final counter.
pub open spec fn draws_well(c: Seq<Seq<char>>, n: u64, d: nat, n_after: u64) -> bool {
    &&& n_after == n + d
    &&& all_drawn_in(c, n as int, n + d)
    &&& c.no_duplicates()
}

proof fn lemma_cc_draws(e: SpecExpr, n: u64)
    requires
        n + draws(e) <= u64::MAX,
    ensures
        cc_spec(e, n).0 matches Ok(c) ==> draws_well(env_params(c), n, draws(e), cc_spec(e, n).1),
    decreases e,
{
    match e {
        SpecExpr::Binop(_, a, b) => {
            lemma_cc_draws(*a, n);
            let n1 = cc_spec(*a, n).1;
            if let Ok(ca) = cc_spec(*a, n).0 {
                lemma_cc_draws(*b, n1);
                if let Ok(cb) = cc_spec(*b, n1).0 {
                    lemma_concat_drawn(env_params(ca), n as int, n1 as int, env_params(cb), n1 as int, n + draws(e), n as int, n + draws(e));
                }
            }
        },
        SpecExpr::Cons(a, b) => {
            lemma_cc_draws(*a, n);
            let n1 = cc_spec(*a, n).1;
            if let Ok(ca) = cc_spec(*a, n).0 {
                lemma_cc_draws(*b, n1);
                if let Ok(cb) = cc_spec(*b, n1).0 {
                    lemma_concat_drawn(env_params(ca), n as int, n1 as int, env_params(cb), n1 as int, n + draws(e), n as int, n + draws(e));
                }
            }
        },
        SpecExpr::If(p, t, a) => {
            lemma_cc_draws(*p, n);
            let n1 = cc_spec(*p, n).1;
            if let Ok(cp) = cc_spec(*p, n).0 {
                lemma_cc_draws(*t, n1);
                let n2 = cc_spec(*t, n1).1;
                if let Ok(ct) = cc_spec(*t, n1).0 {
                    lemma_cc_draws(*a, n2);
                    if let Ok(ca) = cc_spec(*a, n2).0 {
                        lemma_concat_drawn(env_params(cp), n as int, n1 as int, env_params(ct), n1 as int, n2 as int, n as int, n2 as int);
                        lemma_concat_drawn(env_params(cp) + env_params(ct), n as int, n2 as int, env_params(ca), n2 as int, n + draws(e), n as int, n + draws(e));
                    }
                }
            }
        },
        SpecExpr::Let(bs, body) => {
            if binding_types_ok(bs) {
                lemma_cc_bindings_draws(bs, n);
                let n1 = cc_bindings_spec(bs, n).1;
                if let Ok(cbs) = cc_bindings_spec(bs, n).0 {
                    lemma_cc_draws(*body, n1);
                    if let Ok(cb) = cc_spec(*body, n1).0 {
                        lemma_concat_drawn(env_params_bindings(cbs), n as int, n1 as int, env_params(cb), n1 as int, n + draws(e), n as int, n + draws(e));
                    }
                }
            }
        },
        SpecExpr::Lambda(params, ret, body) => {
            lemma_cc_draws(*body, n);
            let n1 = cc_spec(*body, n).1;
            if let Ok(cbody) = cc_spec(*body, n).0 {
                let n2 = next_count(n1);
                assert(n2 == n1 + 1);
                lemma_cc_draws(*body, n2);
                if let Ok(nb) = cc_spec(*body, n2).0 {
                    let name = env_name(n1);
                    let vars = free_vars_lambda(params, cbody);
                    lemma_subst_all_env_params(nb, vars, name);
                    lemma_env_bindings_params(vars);
                    let qs = seq![(name, SpecType::Unknown)] + params;
                    assert(qs[0].0 == name);
                    let c = closure_of(params, ret, name, vars, nb);
                    let lam = SpecCExpr::Lambda(qs, ret, Box::new(subst_all(nb, vars, name)));
                    assert(qs.len() > 0);
                    assert(env_params(lam) == seq![qs[0].0] + env_params(subst_all(nb, vars, name)));
                    let envc = SpecCExpr::Env(env_bindings(vars));
                    assert(env_params(envc) == env_params_bindings(env_bindings(vars)));
                    assert(c == SpecCExpr::Closure(Box::new(lam), Box::new(envc)));
                    assert(env_params(c) == env_params(lam) + env_params(envc));
                    assert(env_params(c) =~= seq![name] + env_params(nb));
                    assert(drawn_in(seq![name][0], n1 as int, n1 + 1));
                    lemma_concat_drawn(seq![name], n1 as int, n1 + 1, env_params(nb), n1 + 1, n + draws(e), n as int, n + draws(e));
                }
            }
        },
        SpecExpr::Begin(es) => {
            lemma_cc_seq_draws(es, n);
        },
        SpecExpr::SetBang(_, v) => {
            lemma_cc_draws(*v, n);
        },
        SpecExpr::Car(a) => {
            lemma_cc_draws(*a, n);
        },
        SpecExpr::Cdr(a) => {
            lemma_cc_draws(*a, n);
        },
        SpecExpr::IsNull(a) => {
            lemma_cc_draws(*a, n);
        },
        SpecExpr::FnApp(f, args) => {
            lemma_cc_seq_draws(args, n);
            let n1 = cc_seq_spec(args, n).1;
            if let Ok(cargs) = cc_seq_spec(args, n).0 {
                lemma_cc_draws(*f, n1);
                if let Ok(cf) = cc_spec(*f, n1).0 {
                    lemma_concat_drawn(env_params(cf), n1 as int, n + draws(e), env_params_seq(cargs), n as int, n1 as int, n as int, n + draws(e));
                }
            }
        },
        _ => {
            lemma_empty_drawn(n as int, n as int);
        },
    }
}

/// Whether the bindings of a `Let` type check in the empty environment.
pub open spec fn binding_types_ok(bs: Seq<(Seq<char>, SpecExpr)>) -> bool {
    crate::type_checker::binding_types_of(Seq::empty(), bs) is Ok
}

proof fn lemma_cc_seq_draws(es: Seq<SpecExpr>, n: u64)
    requires
        n + draws_seq(es) <= u64::MAX,
    ensures
        cc_seq_spec(es, n).0 matches Ok(cs) ==> draws_well(env_params_seq(cs), n, draws_seq(es), cc_seq_spec(es, n).1),
    decreases es,
{
    if es.len() > 0 {
        lemma_cc_seq_draws(es.drop_last(), n);
        let n1 = cc_seq_spec(es.drop_last(), n).1;
        if let Ok(prev) = cc_seq_spec(es.drop_last(), n).0 {
            lemma_cc_draws(es.last(), n1);
            if let Ok(c) = cc_spec(es.last(), n1).0 {
                let cs = prev.push(c);
                assert(cs.drop_last() =~= prev);
                lemma_concat_drawn(env_params_seq(prev), n as int, n1 as int, env_params(c), n1 as int, n + draws_seq(es), n as int, n + draws_seq(es));
            }
        }
    } else {
        lemma_empty_drawn(n as int, n as int);
    }
}

proof fn lemma_cc_bindings_draws(bs: Seq<(Seq<char>, SpecExpr)>, n: u64)
    requires
        n + draws_bindings(bs) <= u64::MAX,
    ensures
        cc_bindings_spec(bs, n).0 matches Ok(cbs) ==> draws_well(env_params_bindings(cbs), n, draws_bindings(bs), cc_bindings_spec(bs, n).1),
    decreases bs,
{
    if bs.len() > 0 {
        lemma_cc_bindings_draws(bs.drop_last(), n);
        let n1 = cc_bindings_spec(bs.drop_last(), n).1;
        if let Ok(prev) = cc_bindings_spec(bs.drop_last(), n).0 {
            lemma_cc_draws(bs.last().1, n1);
            if let Ok(c) = cc_spec(bs.last().1, n1).0 {
                let cbs = prev.push((bs.last().0, c));
                assert(cbs.drop_last() =~= prev);
                lemma_concat_drawn(env_params_bindings(prev), n as int, n1 as int, env_params(c), n1 as int, n + draws_bindings(bs), n as int, n + draws_bindings(bs));
            }
        }
    } else {
        lemma_empty_drawn(n as int, n as int);
    }
}

/// Where the counter does not wrap, one closure conversion moves the counter on by
/// `draws(e)`, and the environment names in its result are pairwise distinct, each
/// drawn at a counter value from the starting one on, below the final one.
pub proof fn closure_convert_env_names_distinct(e: SpecExpr, n: u64)
    requires
        n + draws(e) <= u64::MAX,
    ensures
        cc_spec(e, n).0 matches Ok(c) ==> {
            &&& cc_spec(e, n).1 == n + draws(e)
            &&& env_params(c).no_duplicates()
            &&& all_drawn_in(env_params(c), n as int, cc_spec(e, n).1 as int)
        },
{
    lemma_cc_draws(e, n);
}

} // verus!
