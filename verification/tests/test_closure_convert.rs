use scheme_to_rust::{
    closure_convert, dangerously_reset_gensym_count, generate_env_name, BinOp, CExpr, Expr,
    GensymCount, Type,
};

fn s(x: &str) -> String {
    String::from(x)
}

fn id(x: &str) -> Expr {
    Expr::Id(s(x))
}

fn cid(x: &str) -> CExpr {
    CExpr::Id(s(x))
}

fn env_get(env: &str, x: &str) -> CExpr {
    CExpr::EnvGet(s(env), s(x))
}

fn lambda(params: Vec<(&str, Type)>, ret: Type, body: Expr) -> Expr {
    Expr::Lambda(
        params.into_iter().map(|(x, t)| (s(x), t)).collect(),
        ret,
        Box::new(body),
    )
}

fn closure(params: Vec<(&str, Type)>, ret: Type, body: CExpr, env: Vec<(&str, CExpr)>) -> CExpr {
    CExpr::Closure(
        Box::new(CExpr::Lambda(
            params.into_iter().map(|(x, t)| (s(x), t)).collect(),
            ret,
            Box::new(body),
        )),
        Box::new(CExpr::Env(env.into_iter().map(|(x, e)| (s(x), e)).collect())),
    )
}

#[test]
fn convert_atoms() {
    let mut g = GensymCount::new();
    assert_eq!(closure_convert(&Expr::Num(7), &mut g).unwrap(), CExpr::Num(7));
    assert_eq!(closure_convert(&Expr::Bool(true), &mut g).unwrap(), CExpr::Bool(true));
    assert_eq!(closure_convert(&Expr::Str(s("hi")), &mut g).unwrap(), CExpr::Str(s("hi")));
    assert_eq!(closure_convert(&id("x"), &mut g).unwrap(), cid("x"));
    assert_eq!(closure_convert(&Expr::Null(Type::Int), &mut g).unwrap(), CExpr::Null(Type::Int));
    assert_eq!(g.count, 0);
}

#[test]
fn convert_lambda_captures_free_variable() {
    let mut g = GensymCount::new();
    let exp = lambda(
        vec![("x", Type::Int)],
        Type::Int,
        Expr::Binop(BinOp::Add, Box::new(id("x")), Box::new(id("y"))),
    );
    let expected = closure(
        vec![("env0", Type::Unknown), ("x", Type::Int)],
        Type::Int,
        CExpr::Binop(BinOp::Add, Box::new(cid("x")), Box::new(env_get("env0", "y"))),
        vec![("y", cid("y"))],
    );
    assert_eq!(closure_convert(&exp, &mut g).unwrap(), expected);
    assert_eq!(g.count, 1);
}

#[test]
fn convert_nested_lambdas() {
    let mut g = GensymCount::new();
    let inner = lambda(
        vec![],
        Type::Int,
        Expr::Binop(BinOp::Add, Box::new(id("a")), Box::new(id("b"))),
    );
    let exp = lambda(
        vec![("a", Type::Int)],
        Type::Func(vec![], Box::new(Type::Int)),
        inner,
    );
    let inner_converted = closure(
        vec![("env2", Type::Unknown)],
        Type::Int,
        CExpr::Binop(
            BinOp::Add,
            Box::new(env_get("env2", "a")),
            Box::new(env_get("env2", "b")),
        ),
        vec![("a", cid("a")), ("b", env_get("env1", "b"))],
    );
    let expected = closure(
        vec![("env1", Type::Unknown), ("a", Type::Int)],
        Type::Func(vec![], Box::new(Type::Int)),
        inner_converted,
        vec![("b", cid("b"))],
    );
    assert_eq!(closure_convert(&exp, &mut g).unwrap(), expected);
    assert_eq!(g.count, 3);
}

#[test]
fn convert_repeated_free_variable() {
    let mut g = GensymCount::new();
    let exp = lambda(
        vec![],
        Type::Int,
        Expr::Binop(BinOp::Add, Box::new(id("z")), Box::new(id("z"))),
    );
    let expected = closure(
        vec![("env0", Type::Unknown)],
        Type::Int,
        CExpr::Binop(
            BinOp::Add,
            Box::new(env_get("env0", "z")),
            Box::new(env_get("env0", "z")),
        ),
        vec![("z", cid("z")), ("z", cid("z"))],
    );
    assert_eq!(closure_convert(&exp, &mut g).unwrap(), expected);
}

#[test]
fn convert_set_bang_name_is_not_captured() {
    let mut g = GensymCount::new();
    let exp = lambda(vec![], Type::Int, Expr::SetBang(s("x"), Box::new(Expr::Num(7))));
    let expected = closure(
        vec![("env0", Type::Unknown)],
        Type::Int,
        CExpr::SetBang(s("x"), Box::new(CExpr::Num(7))),
        vec![],
    );
    assert_eq!(closure_convert(&exp, &mut g).unwrap(), expected);
}

#[test]
fn convert_application_arguments_before_function() {
    let mut g = GensymCount::new();
    let exp = Expr::FnApp(
        Box::new(lambda(vec![], Type::Int, Expr::Num(1))),
        vec![lambda(vec![], Type::Int, Expr::Num(2))],
    );
    let expected = CExpr::ClosureApp(
        Box::new(closure(vec![("env1", Type::Unknown)], Type::Int, CExpr::Num(1), vec![])),
        vec![closure(vec![("env0", Type::Unknown)], Type::Int, CExpr::Num(2), vec![])],
    );
    assert_eq!(closure_convert(&exp, &mut g).unwrap(), expected);
    assert_eq!(g.count, 2);
}

#[test]
fn convert_let() {
    let mut g = GensymCount::new();
    let exp = Expr::Let(
        vec![(s("x"), Expr::Num(1))],
        Box::new(Expr::Binop(BinOp::Add, Box::new(id("x")), Box::new(Expr::Num(2)))),
    );
    let expected = CExpr::Let(
        vec![(s("x"), CExpr::Num(1))],
        Box::new(CExpr::Binop(BinOp::Add, Box::new(cid("x")), Box::new(CExpr::Num(2)))),
    );
    assert_eq!(closure_convert(&exp, &mut g).unwrap(), expected);
}

#[test]
fn convert_let_with_ill_typed_binding_fails() {
    let mut g = GensymCount::new();
    let exp = Expr::Let(vec![(s("x"), id("y"))], Box::new(id("x")));
    let err = closure_convert(&exp, &mut g).unwrap_err();
    assert_eq!(
        err.message().as_str(),
        "Type checking error during closure conversion: unbound identifier: y"
    );
    assert_eq!(
        err.to_string(),
        "ClosureConvertError: Type checking error during closure conversion: unbound identifier: y"
    );
}

#[test]
fn convert_failure_inside_lambda_leaves_counter() {
    let mut g = GensymCount::new();
    let exp = lambda(
        vec![("y", Type::Int)],
        Type::Int,
        Expr::Let(vec![(s("x"), id("y"))], Box::new(id("x"))),
    );
    assert!(closure_convert(&exp, &mut g).is_err());
    assert_eq!(g.count, 0);
}

#[test]
fn gensym_names_and_reset() {
    let mut g = GensymCount::new();
    assert_eq!(generate_env_name(&mut g), "env0");
    assert_eq!(generate_env_name(&mut g), "env1");
    assert_eq!(g.count, 2);
    dangerously_reset_gensym_count(&mut g);
    assert_eq!(g.count, 0);
    assert_eq!(generate_env_name(&mut g), "env0");
    g.count = 12345;
    assert_eq!(generate_env_name(&mut g), "env12345");
    assert_eq!(g.count, 12346);
    g.count = u64::MAX;
    assert_eq!(generate_env_name(&mut g), "env18446744073709551615");
    assert_eq!(g.count, 0);
}

#[test]
fn conversion_is_repeatable_after_reset() {
    let exp = lambda(vec![], Type::Int, id("q"));
    let mut g = GensymCount::new();
    let first = closure_convert(&exp, &mut g).unwrap();
    let second = closure_convert(&exp, &mut g).unwrap();
    assert_ne!(first, second);
    dangerously_reset_gensym_count(&mut g);
    assert_eq!(closure_convert(&exp, &mut g).unwrap(), first);
}

#[test]
fn cexpr_clone_is_equal() {
    let c = closure(
        vec![("env0", Type::Unknown), ("x", Type::List(Box::new(Type::Int)))],
        Type::Bool,
        CExpr::Begin(vec![cid("x"), CExpr::Car(Box::new(env_get("env0", "y")))]),
        vec![("y", cid("y"))],
    );
    assert_eq!(c.clone(), c);
}

#[test]
fn convert_fails_on_ill_typed_binding_nested_in_binding_value() {
    let mut g = GensymCount::new();
    let inner = lambda(
        vec![("x", Type::Int)],
        Type::Int,
        Expr::Let(vec![(s("y"), id("x"))], Box::new(id("y"))),
    );
    let exp = Expr::Let(vec![(s("f"), inner)], Box::new(Expr::Num(1)));
    let err = closure_convert(&exp, &mut g).unwrap_err();
    assert_eq!(
        err.message().as_str(),
        "Type checking error during closure conversion: unbound identifier: x"
    );
}

#[test]
fn convert_succeeds_whatever_the_counter() {
    let exp = lambda(vec![("x", Type::Int)], Type::Int, id("x"));
    let mut g = GensymCount { count: 41 };
    let expected = closure(
        vec![("env41", Type::Unknown), ("x", Type::Int)],
        Type::Int,
        cid("x"),
        vec![],
    );
    assert_eq!(closure_convert(&exp, &mut g).unwrap(), expected);
    assert_eq!(g.count, 42);
}

#[test]
fn successive_names_are_distinct() {
    let mut g = GensymCount { count: u64::MAX - 500 };
    let mut names: Vec<String> = Vec::new();
    for _ in 0..1000 {
        names.push(generate_env_name(&mut g));
    }
    let mut sorted = names.clone();
    sorted.sort();
    sorted.dedup();
    assert_eq!(sorted.len(), 1000);
    assert_eq!(names[501], "env0");
    assert_eq!(g.count, 499);
}
