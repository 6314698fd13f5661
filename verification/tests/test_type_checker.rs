use scheme_to_rust::{tc_with_env, type_check, BinOp, Expr, Type, TypeEnv};

fn num(n: i64) -> Expr {
    Expr::Num(n)
}

fn boolean(b: bool) -> Expr {
    Expr::Bool(b)
}

fn string(s: &str) -> Expr {
    Expr::Str(String::from(s))
}

fn id(x: &str) -> Expr {
    Expr::Id(String::from(x))
}

fn bin(op: BinOp, a: Expr, b: Expr) -> Expr {
    Expr::Binop(op, Box::new(a), Box::new(b))
}

fn let_(bindings: Vec<(&str, Expr)>, body: Expr) -> Expr {
    Expr::Let(
        bindings
            .into_iter()
            .map(|(x, e)| (String::from(x), e))
            .collect(),
        Box::new(body),
    )
}

fn lambda(params: Vec<(&str, Type)>, ret: Type, body: Expr) -> Expr {
    Expr::Lambda(
        params
            .into_iter()
            .map(|(x, t)| (String::from(x), t))
            .collect(),
        ret,
        Box::new(body),
    )
}

fn app(f: Expr, args: Vec<Expr>) -> Expr {
    Expr::FnApp(Box::new(f), args)
}

fn if_(p: Expr, c: Expr, a: Expr) -> Expr {
    Expr::If(Box::new(p), Box::new(c), Box::new(a))
}

fn set(x: &str, v: Expr) -> Expr {
    Expr::SetBang(String::from(x), Box::new(v))
}

fn cons(a: Expr, l: Expr) -> Expr {
    Expr::Cons(Box::new(a), Box::new(l))
}

fn list(t: Type) -> Type {
    Type::List(Box::new(t))
}

fn func(params: Vec<Type>, ret: Type) -> Type {
    Type::Func(params, Box::new(ret))
}

#[test]
fn test_typecheck_prims() {
    assert_eq!(type_check(&num(3)).unwrap(), Type::Int);
    assert_eq!(type_check(&num(-497)).unwrap(), Type::Int);
    assert_eq!(type_check(&boolean(true)).unwrap(), Type::Bool);
    assert_eq!(type_check(&boolean(false)).unwrap(), Type::Bool);
    assert_eq!(type_check(&boolean(true)).unwrap(), Type::Bool);
    assert_eq!(type_check(&boolean(false)).unwrap(), Type::Bool);
    assert_eq!(type_check(&string("true")).unwrap(), Type::Str);
    assert_eq!(type_check(&string("foo")).unwrap(), Type::Str);
    assert_eq!(type_check(&string("")).unwrap(), Type::Str);
}

#[test]
fn test_typecheck_binops_happy() {
    assert_eq!(type_check(&bin(BinOp::Add, num(3), num(5))).unwrap(), Type::Int);
    assert_eq!(type_check(&bin(BinOp::Mul, num(3), num(5))).unwrap(), Type::Int);
    assert_eq!(type_check(&bin(BinOp::Sub, num(3), num(5))).unwrap(), Type::Int);
    assert_eq!(type_check(&bin(BinOp::Div, num(3), num(5))).unwrap(), Type::Int);
    let exp = bin(
        BinOp::Add,
        bin(BinOp::Mul, num(4), num(5)),
        bin(BinOp::Sub, num(5), num(2)),
    );
    assert_eq!(type_check(&exp).unwrap(), Type::Int);
    let exp = bin(BinOp::Concat, string("hello "), string("world"));
    assert_eq!(type_check(&exp).unwrap(), Type::Str);
    let exp = bin(BinOp::And, boolean(true), boolean(false));
    assert_eq!(type_check(&exp).unwrap(), Type::Bool);
    let exp = bin(BinOp::Or, boolean(true), boolean(false));
    assert_eq!(type_check(&exp).unwrap(), Type::Bool);
}

#[test]
fn test_typecheck_binops_sad() {
    assert_eq!(type_check(&bin(BinOp::Add, num(3), boolean(true))).is_err(), true);
    assert_eq!(type_check(&bin(BinOp::Mul, num(3), boolean(true))).is_err(), true);
    assert_eq!(type_check(&bin(BinOp::Sub, boolean(false), string("hello"))).is_err(), true);
    assert_eq!(type_check(&bin(BinOp::Div, string("foo"), num(3))).is_err(), true);
    assert_eq!(type_check(&bin(BinOp::Concat, num(3), string("world"))).is_err(), true);
    assert_eq!(type_check(&bin(BinOp::And, num(3), num(6))).is_err(), true);
    assert_eq!(type_check(&bin(BinOp::Or, string("hello"), string("world"))).is_err(), true);
}

#[test]
fn test_typecheck_lists_happy() {
    assert_eq!(type_check(&Expr::Null(Type::Int)).unwrap(), list(Type::Int));
    assert_eq!(type_check(&Expr::Null(Type::Bool)).unwrap(), list(Type::Bool));
    let exp = cons(num(3), Expr::Null(Type::Int));
    assert_eq!(type_check(&exp).unwrap(), list(Type::Int));
    let exp = cons(num(3), cons(num(4), Expr::Null(Type::Int)));
    assert_eq!(type_check(&exp).unwrap(), list(Type::Int));
    let exp = cons(string("foo"), cons(string("bar"), Expr::Null(Type::Str)));
    assert_eq!(type_check(&exp).unwrap(), list(Type::Str));
    let exp = Expr::Car(Box::new(Expr::Null(Type::Int)));
    assert_eq!(type_check(&exp).unwrap(), Type::Int);
    let exp = Expr::Cdr(Box::new(Expr::Null(Type::Int)));
    assert_eq!(type_check(&exp).unwrap(), list(Type::Int));
    let exp = Expr::Car(Box::new(cons(num(3), Expr::Null(Type::Int))));
    assert_eq!(type_check(&exp).unwrap(), Type::Int);
    let exp = Expr::Cdr(Box::new(cons(num(3), Expr::Null(Type::Int))));
    assert_eq!(type_check(&exp).unwrap(), list(Type::Int));
    let exp = Expr::IsNull(Box::new(Expr::Null(Type::Int)));
    assert_eq!(type_check(&exp).unwrap(), Type::Bool);
}

#[test]
fn test_typecheck_lists_sad() {
    // `null` on its own is an identifier, and an unbound one
    assert_eq!(type_check(&id("null")).is_err(), true);
    // type of car does not match type of cdr
    let exp = cons(string("hey"), Expr::Null(Type::Int));
    assert_eq!(type_check(&exp).is_err(), true);
    // invalid argument to car
    assert_eq!(type_check(&Expr::Car(Box::new(num(3)))).is_err(), true);
    // invalid argument to cdr
    assert_eq!(type_check(&Expr::Cdr(Box::new(num(3)))).is_err(), true);
}

#[test]
fn test_typecheck_let_happy() {
    let exp = let_(vec![("x", num(23))], bin(BinOp::Add, id("x"), num(24)));
    assert_eq!(type_check(&exp).unwrap(), Type::Int);
}

#[test]
fn test_typecheck_let_sad() {
    // one variable missing
    let exp = let_(vec![("x", num(23))], bin(BinOp::Add, id("x"), id("y")));
    assert_eq!(type_check(&exp).is_err(), true);
}

#[test]
fn test_typecheck_sideeffects_happy() {
    let exp = Expr::Begin(vec![bin(BinOp::Add, num(3), num(5))]);
    assert_eq!(type_check(&exp).unwrap(), Type::Int);
    let exp = Expr::Begin(vec![bin(BinOp::Add, num(3), num(5)), bin(BinOp::Sub, num(4), num(1))]);
    assert_eq!(type_check(&exp).unwrap(), Type::Int);
    let exp = let_(vec![("x", num(3))], set("x", num(7)));
    assert_eq!(type_check(&exp).unwrap(), Type::Int);
}

#[test]
fn test_typecheck_sideeffects_sad() {
    // begin expression is missing arguments
    assert_eq!(type_check(&Expr::Begin(vec![])).is_err(), true);
    // intermediary expression in begin is not valid
    let exp = Expr::Begin(vec![
        bin(BinOp::Add, num(3), string("hello")),
        bin(BinOp::Sub, num(4), num(1)),
    ]);
    assert_eq!(type_check(&exp).is_err(), true);
    // last expression in begin is not valid
    let exp = Expr::Begin(vec![
        bin(BinOp::Add, num(3), num(4)),
        bin(BinOp::Sub, num(4), string("hello")),
    ]);
    assert_eq!(type_check(&exp).is_err(), true);
    // using set! before variable is defined
    assert_eq!(type_check(&set("x", num(7))).is_err(), true);
}

#[test]
fn test_typecheck_local_scoping() {
    // local variable overrides outer variable
    let exp = let_(
        vec![("x", string("hello"))],
        let_(vec![("x", num(23))], bin(BinOp::Add, id("x"), num(24))),
    );
    assert_eq!(type_check(&exp).unwrap(), Type::Int);

    // binding from let lasts past its scope
    let exp = bin(
        BinOp::Add,
        let_(vec![("x", num(5))], bin(BinOp::Add, id("x"), num(3))),
        id("x"),
    );
    assert_eq!(type_check(&exp).is_err(), true);

    // binding from lambda lasts past its scope
    let exp = bin(
        BinOp::Add,
        app(lambda(vec![("x", Type::Int)], Type::Int, id("x")), vec![num(3)]),
        id("x"),
    );
    assert_eq!(type_check(&exp).is_err(), true);

    // let bindings with same names of conflicting types
    let exp = bin(
        BinOp::And,
        let_(vec![("x", num(5))], bin(BinOp::LessThan, id("x"), num(3))),
        let_(vec![("x", boolean(false))], bin(BinOp::Or, id("x"), boolean(true))),
    );
    assert_eq!(type_check(&exp).unwrap(), Type::Bool);

    // lambda bindings with same names of conflicting types
    let exp = bin(
        BinOp::And,
        app(
            lambda(vec![("x", Type::Int)], Type::Bool, bin(BinOp::LessThan, id("x"), num(3))),
            vec![num(5)],
        ),
        app(
            lambda(vec![("x", Type::Bool)], Type::Bool, bin(BinOp::And, id("x"), boolean(true))),
            vec![boolean(false)],
        ),
    );
    assert_eq!(type_check(&exp).unwrap(), Type::Bool);

    // using set! after variable goes out of scope
    let exp = Expr::Begin(vec![
        let_(vec![("x", num(3))], bin(BinOp::Add, id("x"), num(5))),
        set("x", num(7)),
    ]);
    assert_eq!(type_check(&exp).is_err(), true);
}

#[test]
fn test_test_typecheck_if_happy() {
    let exp = if_(bin(BinOp::LessThan, num(3), num(4)), num(1), num(-1));
    assert_eq!(type_check(&exp).unwrap(), Type::Int);
}

#[test]
fn test_typecheck_if_sad() {
    // invalid predicate
    let exp = if_(num(3), num(4), num(5));
    assert_eq!(type_check(&exp).is_err(), true);
    // consequent and alternate do not match
    let exp = if_(bin(BinOp::LessThan, num(3), num(4)), string("hello"), num(5));
    assert_eq!(type_check(&exp).is_err(), true);
}

#[test]
fn test_typecheck_lambda_happy() {
    let exp = lambda(vec![], Type::Int, num(3));
    assert_eq!(type_check(&exp).unwrap(), func(vec![], Type::Int));

    let exp = lambda(vec![("x", Type::Int)], Type::Bool, bin(BinOp::LessThan, id("x"), num(5)));
    assert_eq!(type_check(&exp).unwrap(), func(vec![Type::Int], Type::Bool));

    let exp = lambda(
        vec![("x", Type::Int), ("y", Type::Int)],
        Type::Int,
        bin(BinOp::Mul, id("x"), id("y")),
    );
    assert_eq!(type_check(&exp).unwrap(), func(vec![Type::Int, Type::Int], Type::Int));

    let exp = lambda(
        vec![
            ("fn", func(vec![Type::Int, Type::Int], Type::Bool)),
            ("x", Type::Int),
            ("y", Type::Int),
        ],
        Type::Bool,
        app(id("fn"), vec![id("x"), id("y")]),
    );
    assert_eq!(
        type_check(&exp).unwrap(),
        func(
            vec![func(vec![Type::Int, Type::Int], Type::Bool), Type::Int, Type::Int],
            Type::Bool
        )
    );
}

#[test]
fn test_typecheck_lambda_sad() {
    // mismatched return type
    let exp = lambda(vec![], Type::Bool, num(3));
    assert_eq!(type_check(&exp).is_err(), true);
    // input types do not work in body
    let exp = lambda(
        vec![("x", Type::Bool), ("y", Type::Bool)],
        Type::Int,
        bin(BinOp::Add, id("x"), id("y")),
    );
    assert_eq!(type_check(&exp).is_err(), true);
}

#[test]
fn test_type_check_apply_happy() {
    let exp = app(lambda(vec![], Type::Int, num(3)), vec![]);
    assert_eq!(type_check(&exp).unwrap(), Type::Int);

    let exp = app(
        lambda(vec![("x", Type::Int)], Type::Bool, bin(BinOp::LessThan, id("x"), num(5))),
        vec![num(3)],
    );
    assert_eq!(type_check(&exp).unwrap(), Type::Bool);

    let exp = app(
        lambda(vec![("x", Type::Int), ("y", Type::Int)], Type::Int, bin(BinOp::Mul, id("x"), id("y"))),
        vec![num(5), num(6)],
    );
    assert_eq!(type_check(&exp).unwrap(), Type::Int);

    let exp = app(
        lambda(vec![("x", Type::Int), ("y", Type::Int)], Type::Int, bin(BinOp::Mul, id("x"), id("y"))),
        vec![num(5), num(6)],
    );
    assert_eq!(type_check(&exp).unwrap(), Type::Int);
}

#[test]
fn test_type_check_apply_hof_happy() {
    // this is basically (apply (lambda equivalent to <) 3 5)
    let exp = app(
        lambda(
            vec![
                ("fn", func(vec![Type::Int, Type::Int], Type::Bool)),
                ("x", Type::Int),
                ("y", Type::Int),
            ],
            Type::Bool,
            app(id("fn"), vec![id("x"), id("y")]),
        ),
        vec![
            lambda(
                vec![("a", Type::Int), ("b", Type::Int)],
                Type::Bool,
                bin(BinOp::LessThan, id("a"), id("b")),
            ),
            num(3),
            num(5),
        ],
    );
    assert_eq!(type_check(&exp).unwrap(), Type::Bool);

    // "map" is recursive, so its name is bound in the environment for this check
    let exp = lambda(
        vec![("f", func(vec![Type::Int], Type::Int)), ("lst", list(Type::Int))],
        list(Type::Int),
        if_(
            Expr::IsNull(Box::new(id("lst"))),
            Expr::Null(Type::Int),
            cons(
                app(id("f"), vec![Expr::Car(Box::new(id("lst")))]),
                app(id("map"), vec![id("f"), Expr::Cdr(Box::new(id("lst")))]),
            ),
        ),
    );
    let map_type = func(
        vec![func(vec![Type::Int], Type::Int), list(Type::Int)],
        list(Type::Int),
    ); // (-> (-> int int) (list int) (list int))
    let mut env = TypeEnv::new();
    env = env.add_binding((String::from("map"), map_type.clone()));
    assert_eq!(tc_with_env(&exp, &mut env).unwrap(), map_type);
}

#[test]
fn test_type_check_apply_sad() {
    // missing parameters
    let exp = app(
        lambda(vec![("x", Type::Int)], Type::Bool, bin(BinOp::LessThan, id("x"), num(5))),
        vec![],
    );
    assert_eq!(type_check(&exp).is_err(), true);
    // too many parameters
    let exp = app(
        lambda(vec![("x", Type::Int)], Type::Bool, bin(BinOp::LessThan, id("x"), num(5))),
        vec![num(3), num(5)],
    );
    assert_eq!(type_check(&exp).is_err(), true);
    // arg type does not match param type
    let exp = app(
        lambda(vec![("x", Type::Int)], Type::Bool, bin(BinOp::LessThan, id("x"), num(5))),
        vec![boolean(true)],
    );
    assert_eq!(type_check(&exp).is_err(), true);
}

#[test]
fn type_error_messages() {
    let e = type_check(&id("y")).unwrap_err();
    assert_eq!(e.message().as_str(), "unbound identifier: y");
    let e = type_check(&Expr::Begin(vec![])).unwrap_err();
    assert_eq!(e.message().as_str(), "begin needs at least one expression");
    let e = type_check(&set("z", num(1))).unwrap_err();
    assert_eq!(e.message().as_str(), "set! of an unbound identifier: z");
    let exp = app(lambda(vec![("x", Type::Int)], Type::Int, id("x")), vec![]);
    assert_eq!(type_check(&exp).unwrap_err().message().as_str(), "wrong number of arguments");
    let exp = app(num(1), vec![]);
    assert_eq!(
        type_check(&exp).unwrap_err().message().as_str(),
        "application of a value that is not a function"
    );
    // the first error from the left is the one reported
    let exp = bin(BinOp::Add, id("a"), id("b"));
    assert_eq!(type_check(&exp).unwrap_err().message().as_str(), "unbound identifier: a");
}

#[test]
fn type_env_shadowing() {
    let env = TypeEnv::new()
        .add_binding((String::from("x"), Type::Int))
        .add_binding((String::from("x"), Type::Bool));
    assert_eq!(env.lookup(&String::from("x")), Some(Type::Bool));
    assert_eq!(env.lookup(&String::from("y")), None);
    assert_eq!(tc_with_env(&id("x"), &env).unwrap(), Type::Bool);
}
