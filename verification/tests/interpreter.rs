use cx::frontend::lexer::tok_collector;
use cx::frontend::parser::parse_program;
use cx::frontend::ast::{AstValue, CallArg, Expr, Op, ParamKind, Stmt, Type, WhenArm, WhenBody, WhenPattern};
use cx::interpreter::{RunTime, Stop};
use cx::operators::{RuntimeError, Value};

fn run(src: &str) -> (RunTime, Result<(), Stop>) {
    let toks = tok_collector(src).ok().unwrap();
    let floats = vec![0u64; toks.len()];
    let program = match parse_program(&toks, &floats, src.len()) {
        Ok(p) => p,
        Err(e) => panic!("parse error at {}: {}", e.pos, e.msg),
    };
    let mut rt = RunTime::new();
    let r = rt.run_program(&program, 100);
    (rt, r)
}

fn printed(rt: &RunTime) -> Vec<String> {
    rt.output.iter().map(|(v, nl)| format!("{:?}{}", v, if *nl { "\n" } else { "" })).collect()
}

#[test]
fn arithmetic_and_printing() {
    let (rt, r) = run("let x; x = 2 + 3 * 4; print(x); y: t32 = x - 20; print!(y);");
    assert!(r.is_ok());
    assert_eq!(printed(&rt), vec!["Num(14)\n".to_string(), "Num(0)".to_string()]);
}

#[test]
fn blocks_close_their_scope() {
    let (rt, r) = run("let x; x = 1; { let y; y = 5; x = y; } print(x); print(y);");
    assert_eq!(printed(&rt), vec!["Num(5)\n".to_string()]);
    assert!(matches!(r, Err(Stop::Error(RuntimeError::UndefinedVar { pos: 55, .. }))));
    assert_eq!(rt.scopes.len(), 1);
}

#[test]
fn redeclaration_and_uninitialised_reads_fail() {
    let (_, r) = run("let x; let x;");
    assert!(matches!(r, Err(Stop::Error(RuntimeError::AlreadyDeclared { pos: 7, .. }))));
    let (_, r) = run("let x; print(x);");
    assert!(matches!(r, Err(Stop::Error(RuntimeError::UninitializedVar { .. }))));
}

#[test]
fn typed_variables_check_their_type() {
    let (_, r) = run("x: t32 = true;");
    assert!(matches!(r, Err(Stop::Error(RuntimeError::TypeMismatch { .. }))));
    let (_, r) = run("let b: bool; b = 1;");
    assert!(matches!(r, Err(Stop::Error(RuntimeError::TypeMismatch { .. }))));
}

#[test]
fn compound_assignment_and_division_by_zero() {
    let (rt, r) = run("let x; x = 7; x * 3 = ; print(x); x / 0 = ;");
    assert_eq!(printed(&rt), vec!["Num(21)\n".to_string()]);
    assert!(matches!(r, Err(Stop::Error(RuntimeError::DivByZero { .. }))));
}

#[test]
fn return_at_top_level_and_floats_stop() {
    let (_, r) = run("return 3;");
    assert!(matches!(r, Err(Stop::Error(RuntimeError::EarlyReturn(Value::Num(3))))));
    let (_, r) = run("let f; f = 1.5 + 1;");
    assert!(matches!(r, Err(Stop::Float { .. })));
}

#[test]
fn negation_wraps() {
    let (rt, _) = run("print(-1); print(-0);");
    assert_eq!(printed(&rt), vec![format!("Num({})\n", u128::MAX), "Num(0)\n".to_string()]);
}

#[test]
fn is_known_builtin() {
    let (rt, r) = run("let x; x = 1; print(is_known(x)); print(is_known(2 * x));");
    assert!(r.is_ok());
    assert_eq!(printed(&rt), vec!["Bool(true)\n".to_string(), "Bool(true)\n".to_string()]);
    let (_, r) = run("is_known();");
    assert!(matches!(r, Err(Stop::Error(RuntimeError::UndefinedVar { pos: 0, .. }))));
    let (_, r) = run("f(1);");
    assert!(matches!(r, Err(Stop::Error(RuntimeError::UndefinedVar { .. }))));
}

fn num(n: u128) -> Expr {
    Expr::Val(AstValue::Num(n))
}

fn ident(n: &str) -> Expr {
    Expr::Ident(n.to_string(), 0)
}

#[test]
fn dropped_handles_are_stale() {
    let mut rt = RunTime::new();
    let decl = Stmt::TypedAssign {
        name: "h".to_string(),
        ty: Type::Handle(Box::new(Type::T32)),
        expr: Expr::HandleNew(Box::new(num(5)), 0),
        pos_type: 0,
    };
    assert!(rt.run_stmt(&vec![], &decl, 10).is_ok());
    assert!(matches!(rt.eval_expr(&vec![], &Expr::HandleVal("h".to_string(), 4), 10), Ok(Value::Num(5))));
    assert!(matches!(rt.eval_expr(&vec![], &Expr::HandleDrop("h".to_string(), 4), 10), Ok(Value::Num(0))));
    assert!(matches!(
        rt.eval_expr(&vec![], &Expr::HandleVal("h".to_string(), 9), 10),
        Err(Stop::Error(RuntimeError::StaleHandle { pos: 9 }))
    ));
    // A second drop through the stale handle changes nothing.
    assert!(matches!(rt.eval_expr(&vec![], &Expr::HandleDrop("h".to_string(), 4), 10), Ok(Value::Num(0))));
    // The freed slot is reused under a new generation.
    let again = Stmt::TypedAssign {
        name: "g".to_string(),
        ty: Type::Handle(Box::new(Type::T32)),
        expr: Expr::HandleNew(Box::new(num(6)), 0),
        pos_type: 0,
    };
    assert!(rt.run_stmt(&vec![], &again, 10).is_ok());
    assert!(matches!(rt.eval_expr(&vec![], &Expr::HandleVal("g".to_string(), 0), 10), Ok(Value::Num(6))));
    assert!(matches!(
        rt.eval_expr(&vec![], &Expr::HandleVal("h".to_string(), 2), 10),
        Err(Stop::Error(RuntimeError::StaleHandle { pos: 2 }))
    ));
}

#[test]
fn handle_reads_through_a_non_handle_are_stale() {
    let (mut rt, r) = run("let x; x = 3;");
    assert!(r.is_ok());
    assert!(matches!(
        rt.eval_expr(&vec![], &Expr::HandleVal("x".to_string(), 1), 10),
        Err(Stop::Error(RuntimeError::StaleHandle { pos: 1 }))
    ));
}

#[test]
fn a_float_divided_by_integer_zero_is_a_division_by_zero() {
    let mut rt = RunTime::new();
    let e = Expr::Bin(Box::new(Expr::Val(AstValue::Float(1.0f64.to_bits()))), Op::Div, 5, Box::new(num(0)));
    assert!(matches!(rt.eval_expr(&vec![], &e, 10), Err(Stop::Error(RuntimeError::DivByZero { pos: 5 }))));
    let e = Expr::Bin(Box::new(num(7)), Op::Mod, 5, Box::new(Expr::Val(AstValue::Float((-0.0f64).to_bits()))));
    assert!(matches!(rt.eval_expr(&vec![], &e, 10), Err(Stop::Error(RuntimeError::DivByZero { pos: 5 }))));
    let e = Expr::Bin(Box::new(num(7)), Op::Div, 5, Box::new(num(2)));
    assert!(matches!(rt.eval_expr(&vec![], &e, 10), Ok(Value::Num(3))));
}

#[test]
fn copy_parameters_return_their_value_to_the_caller() {
    let (mut rt, r) = run("let a; a = 1; let b; b = 10;");
    assert!(r.is_ok());
    let params = vec![ParamKind::Copy("p".to_string()), ParamKind::CopyFree("q".to_string())];
    let body = vec![
        Stmt::CompoundAssign { name: "p".to_string(), op: Op::Plus, operand: num(5), pos: 0 },
        Stmt::CompoundAssign { name: "q".to_string(), op: Op::Plus, operand: num(5), pos: 0 },
        Stmt::Print { expr: ident("q"), pos: 0 },
        Stmt::Return { expr: Some(Expr::Bin(Box::new(ident("p")), Op::Plus, 0, Box::new(ident("q")))), pos: 0 },
    ];
    let args = vec![CallArg::Copy("a".to_string()), CallArg::CopyFree("b".to_string())];
    let v = rt.call_function(&vec![], &params, &body, &None, &args, 0, 10);
    assert!(matches!(v, Ok(Value::Num(21))));
    assert!(matches!(rt.get_var(&"a".to_string(), 0), Ok(Value::Num(6))));
    assert!(matches!(rt.get_var(&"b".to_string(), 0), Ok(Value::Num(10))));
    assert_eq!(printed(&rt), vec!["Num(15)\n".to_string()]);
    assert_eq!(rt.scopes.len(), 1);
}

#[test]
fn typed_parameters_and_result_expressions() {
    let mut rt = RunTime::new();
    let params = vec![ParamKind::Typed("x".to_string(), Type::T32)];
    let ret = Some(Expr::Bin(Box::new(ident("x")), Op::Mul, 0, Box::new(num(2))));
    let v = rt.call_function(&vec![], &params, &vec![], &ret, &vec![CallArg::Expr(num(21))], 0, 10);
    assert!(matches!(v, Ok(Value::Num(42))));
    // No result expression gives 0; a mismatched argument is a bad call.
    assert!(matches!(rt.call_function(&vec![], &vec![], &vec![], &None, &vec![], 0, 10), Ok(Value::Num(0))));
    let bad = rt.call_function(&vec![], &params, &vec![], &None, &vec![CallArg::Copy("x".to_string())], 8, 10);
    assert!(matches!(bad, Err(Stop::Error(RuntimeError::BadAssignTarget { pos: 8 }))));
    assert_eq!(rt.scopes.len(), 1);
}

#[test]
fn functions_defined_in_the_program_can_be_called() {
    let (rt, r) = run("fnc double(x: t64) -> t64 { return x * 2; } let a; a = double(21); print(a);");
    assert!(r.is_ok());
    assert_eq!(printed(&rt), vec!["Num(42)\n".to_string()]);
}

#[test]
fn copy_arguments_come_back_after_a_call() {
    let (rt, r) = run("fnc bump(n.copy) { n = n + 1; } let c; c = 4; bump(c.copy); print(c);");
    assert!(r.is_ok());
    assert_eq!(printed(&rt), vec!["Num(5)\n".to_string()]);
}

#[test]
fn unbounded_recursion_runs_out_of_fuel() {
    let (rt, r) = run("fnc f(x: t64) -> t64 { return f(x); } f(1);");
    assert!(matches!(r, Err(Stop::OutOfFuel)));
    assert_eq!(rt.scopes.len(), 1);
}

#[test]
fn while_for_and_loop_statements_run() {
    let mut rt = RunTime::new();
    let prog: Vec<Stmt> = vec![];
    let init = Stmt::TypedAssign { name: "i".to_string(), ty: Type::T32, expr: num(0), pos_type: 0 };
    assert!(rt.run_stmt(&prog, &init, 100).is_ok());
    let w = Stmt::While {
        cond: Expr::Bin(Box::new(ident("i")), Op::Lt, 0, Box::new(num(3))),
        body: vec![
            Stmt::Print { expr: ident("i"), pos: 0 },
            Stmt::CompoundAssign { name: "i".to_string(), op: Op::Plus, operand: num(1), pos: 0 },
        ],
        pos: 0,
    };
    assert!(rt.run_stmt(&prog, &w, 100).is_ok());
    let f = Stmt::For {
        var: "k".to_string(),
        start: num(1),
        end: num(2),
        inclusive: true,
        body: vec![Stmt::Print { expr: ident("k"), pos: 0 }],
        pos: 0,
    };
    assert!(rt.run_stmt(&prog, &f, 100).is_ok());
    let l = Stmt::Loop {
        body: vec![Stmt::Print { expr: num(9), pos: 0 }, Stmt::Break { pos: 0 }],
        pos: 0,
    };
    assert!(rt.run_stmt(&prog, &l, 100).is_ok());
    assert_eq!(
        printed(&rt),
        vec!["Num(0)\n", "Num(1)\n", "Num(2)\n", "Num(1)\n", "Num(2)\n", "Num(9)\n"]
            .into_iter()
            .map(|s| s.to_string())
            .collect::<Vec<_>>()
    );
    let forever = Stmt::Loop { body: vec![], pos: 0 };
    assert!(matches!(rt.run_stmt(&prog, &forever, 5), Err(Stop::OutOfFuel)));
    assert_eq!(rt.scopes.len(), 1);
}

#[test]
fn when_statements_pick_the_first_matching_arm() {
    let mut rt = RunTime::new();
    let prog: Vec<Stmt> = vec![];
    let arm = |p: WhenPattern, n: u128| WhenArm {
        pattern: p,
        body: WhenBody::Stmts(vec![Stmt::Print { expr: num(n), pos: 0 }]),
        pos: 0,
    };
    let when = |v: u128| Stmt::When {
        expr: num(v),
        arms: vec![
            arm(WhenPattern::Literal(AstValue::Num(1)), 10),
            arm(WhenPattern::Range(AstValue::Num(2), AstValue::Num(4), true), 20),
            arm(WhenPattern::Catchall, 30),
        ],
        pos: 0,
    };
    for v in [1u128, 4, 7] {
        assert!(rt.run_stmt(&prog, &when(v), 10).is_ok());
    }
    assert_eq!(printed(&rt), vec!["Num(10)\n".to_string(), "Num(20)\n".to_string(), "Num(30)\n".to_string()]);
    let grouped = Stmt::When {
        expr: num(1),
        arms: vec![arm(WhenPattern::Group("E".to_string(), "g".to_string()), 1)],
        pos: 0,
    };
    assert!(matches!(rt.run_stmt(&prog, &grouped, 10), Err(Stop::Unsupported)));
}
