use cx::frontend::ast::Op;
use cx::frontend::semantic_types::{
    BindingId, FunctionId, SemanticCallArg, SemanticExpr, SemanticExprKind, SemanticLValue, SemanticStmt,
    SemanticType, SemanticValue, SemanticWhenArm, SemanticWhenPattern,
};
use cx::interpreter::{RunTime, Stop};
use cx::operators::{RuntimeError, Value};

fn num(n: u128) -> SemanticExpr {
    SemanticExpr { ty: SemanticType::I32, kind: SemanticExprKind::Value(SemanticValue::Num(n)) }
}

fn var(name: &str) -> SemanticExpr {
    SemanticExpr { ty: SemanticType::I32, kind: SemanticExprKind::VarRef { binding: BindingId(0), name: name.to_string() } }
}

fn bin(l: SemanticExpr, op: Op, r: SemanticExpr) -> SemanticExpr {
    SemanticExpr {
        ty: SemanticType::I32,
        kind: SemanticExprKind::Binary { lhs: Box::new(l), op, pos: 0, rhs: Box::new(r) },
    }
}

fn let_num(name: &str, n: u128) -> SemanticStmt {
    SemanticStmt::TypedAssign { binding: BindingId(0), name: name.to_string(), ty: SemanticType::I32, expr: num(n), pos_type: 0 }
}

fn add_to(name: &str, e: SemanticExpr) -> SemanticStmt {
    SemanticStmt::CompoundAssign { binding: Some(BindingId(0)), name: name.to_string(), op: Op::Plus, operand: e, pos: 0 }
}

fn print(e: SemanticExpr) -> SemanticStmt {
    SemanticStmt::Print { expr: e, pos: 0 }
}

fn run(stmts: Vec<SemanticStmt>, fuel: u64) -> (RunTime, Result<(), Stop>) {
    let mut rt = RunTime::new();
    let r = rt.run_semantic_seq(&stmts, fuel);
    (rt, r)
}

fn printed(rt: &RunTime) -> Vec<String> {
    rt.output.iter().map(|(v, nl)| format!("{:?}{}", v, if *nl { "\n" } else { "" })).collect()
}

#[test]
fn while_loop_counts_up() {
    let body = vec![print(var("i")), add_to("i", num(1))];
    let w = SemanticStmt::While { cond: bin(var("i"), Op::Lt, num(3)), body, pos: 0 };
    let (rt, r) = run(vec![let_num("i", 0), w], 100);
    assert!(r.is_ok());
    assert_eq!(printed(&rt), vec!["Num(0)\n", "Num(1)\n", "Num(2)\n"]);
    assert!(matches!(rt.get_var(&"i".to_string(), 0), Ok(Value::Num(3))));
    assert_eq!(rt.scopes.len(), 1);
}

#[test]
fn inclusive_for_loop_sums_its_range() {
    let f = SemanticStmt::For {
        binding: BindingId(1),
        var: "k".to_string(),
        start: num(1),
        end: num(4),
        inclusive: true,
        body: vec![add_to("total", var("k"))],
        pos: 0,
    };
    let (rt, r) = run(vec![let_num("total", 0), f, print(var("total"))], 100);
    assert!(r.is_ok());
    assert_eq!(printed(&rt), vec!["Num(10)\n"]);
}

#[test]
fn exclusive_for_loop_stops_before_its_end_and_hides_its_variable() {
    let f = SemanticStmt::For {
        binding: BindingId(1),
        var: "k".to_string(),
        start: num(2),
        end: num(5),
        inclusive: false,
        body: vec![print(var("k"))],
        pos: 0,
    };
    let (rt, r) = run(vec![f, print(var("k"))], 100);
    assert_eq!(printed(&rt), vec!["Num(2)\n", "Num(3)\n", "Num(4)\n"]);
    assert!(matches!(r, Err(Stop::Error(RuntimeError::UndefinedVar { pos: 0, .. }))));
}

#[test]
fn break_leaves_a_loop_and_continue_skips_the_rest_of_the_body() {
    let l = SemanticStmt::Loop { body: vec![print(num(7)), SemanticStmt::Break { pos: 0 }, print(num(8))], pos: 0 };
    let body = vec![add_to("i", num(1)), SemanticStmt::Continue { pos: 0 }, print(var("i"))];
    let w = SemanticStmt::While { cond: bin(var("i"), Op::Lt, num(3)), body, pos: 0 };
    let (rt, r) = run(vec![l, let_num("i", 0), w, print(var("i"))], 100);
    assert!(r.is_ok());
    assert_eq!(printed(&rt), vec!["Num(7)\n", "Num(3)\n"]);
}

#[test]
fn a_loop_that_never_ends_runs_out_of_fuel() {
    let l = SemanticStmt::Loop { body: vec![add_to("n", num(1))], pos: 0 };
    let (rt, r) = run(vec![let_num("n", 0), l], 5);
    assert!(matches!(r, Err(Stop::OutOfFuel)));
    assert!(matches!(rt.get_var(&"n".to_string(), 0), Ok(Value::Num(5))));
    assert_eq!(rt.scopes.len(), 1);
}

#[test]
fn break_outside_a_loop_is_reported() {
    let (_, r) = run(vec![SemanticStmt::Break { pos: 3 }], 10);
    assert!(matches!(r, Err(Stop::Error(RuntimeError::BreakSignal))));
}

#[test]
fn for_loop_over_a_non_number_is_refused() {
    let f = SemanticStmt::For {
        binding: BindingId(1),
        var: "k".to_string(),
        start: SemanticExpr { ty: SemanticType::Bool, kind: SemanticExprKind::Value(SemanticValue::Bool(true)) },
        end: num(3),
        inclusive: false,
        body: vec![],
        pos: 0,
    };
    let (_, r) = run(vec![f], 10);
    assert!(matches!(r, Err(Stop::Error(RuntimeError::BadAssignTarget { pos: 0 }))));
}

#[test]
fn block_scope_closes_even_after_an_error() {
    let block = SemanticStmt::Block {
        stmts: vec![let_num("y", 1), SemanticStmt::Return { expr: Some(var("y")), pos: 0 }],
        pos: 0,
    };
    let (rt, r) = run(vec![block], 10);
    assert!(matches!(r, Err(Stop::Error(RuntimeError::EarlyReturn(Value::Num(1))))));
    assert_eq!(rt.scopes.len(), 1);
}

#[test]
fn assignment_and_unknown_booleans() {
    let decl = SemanticStmt::Decl { binding: BindingId(0), name: "x".to_string(), ty: None, pos: 0 };
    let assign = SemanticStmt::Assign {
        target: SemanticLValue::Binding { binding: BindingId(0), name: "x".to_string(), ty: SemanticType::I32 },
        expr: bin(num(6), Op::Mul, num(7)),
        pos_eq: 0,
    };
    let unknown = SemanticExpr { ty: SemanticType::Unknown, kind: SemanticExprKind::Value(SemanticValue::Unknown) };
    let b = SemanticStmt::TypedAssign { binding: BindingId(1), name: "b".to_string(), ty: SemanticType::Bool, expr: unknown, pos_type: 0 };
    let (rt, r) = run(vec![decl, assign, b, print(var("x")), print(var("b"))], 10);
    assert!(r.is_ok());
    assert_eq!(printed(&rt), vec!["Num(42)\n", "TBool(2)\n"]);
}

#[test]
fn is_known_tells_unknown_values_apart() {
    let rt = RunTime::new();
    let call = |v: SemanticValue| SemanticExpr {
        ty: SemanticType::Bool,
        kind: SemanticExprKind::Call {
            callee: "is_known".to_string(),
            function: FunctionId(0),
            args: vec![SemanticCallArg::Expr(SemanticExpr { ty: SemanticType::Unknown, kind: SemanticExprKind::Value(v) })],
        },
    };
    assert!(matches!(rt.eval_semantic_expr(&call(SemanticValue::Unknown)), Ok(Value::Bool(false))));
    assert!(matches!(rt.eval_semantic_expr(&call(SemanticValue::Num(1))), Ok(Value::Bool(true))));
}

fn arm(pattern: SemanticWhenPattern, n: u128) -> SemanticWhenArm {
    SemanticWhenArm { pattern, body: vec![print(num(n))], pos: 0 }
}

#[test]
fn when_runs_the_first_matching_arm() {
    let arms = || {
        vec![
            arm(SemanticWhenPattern::Literal(SemanticValue::Num(1)), 10),
            arm(SemanticWhenPattern::Range(SemanticValue::Num(2), SemanticValue::Num(5), false), 20),
            arm(SemanticWhenPattern::Catchall, 30),
        ]
    };
    let w = |n: u128| SemanticStmt::When { expr: num(n), arms: arms(), pos: 0 };
    let (rt, r) = run(vec![w(1), w(4), w(5), w(2)], 10);
    assert!(r.is_ok());
    assert_eq!(printed(&rt), vec!["Num(10)\n", "Num(20)\n", "Num(30)\n", "Num(20)\n"]);
    assert_eq!(rt.scopes.len(), 1);
}

#[test]
fn when_matches_enum_variants_and_may_match_nothing() {
    let variant = |v: &str| SemanticValue::EnumVariant {
        enum_name: "Color".to_string(),
        variant_name: v.to_string(),
        enum_id: None,
        variant_id: None,
    };
    let red_arm = arm(
        SemanticWhenPattern::EnumVariant {
            enum_name: "Color".to_string(),
            variant_name: "Red".to_string(),
            enum_id: None,
            variant_id: None,
        },
        1,
    );
    let expr = |v: &str| SemanticExpr { ty: SemanticType::Enum("Color".to_string()), kind: SemanticExprKind::Value(variant(v)) };
    let w1 = SemanticStmt::When { expr: expr("Red"), arms: vec![red_arm], pos: 0 };
    let blue_arm = arm(
        SemanticWhenPattern::EnumVariant {
            enum_name: "Color".to_string(),
            variant_name: "Red".to_string(),
            enum_id: None,
            variant_id: None,
        },
        2,
    );
    let w2 = SemanticStmt::When { expr: expr("Blue"), arms: vec![blue_arm], pos: 0 };
    let (rt, r) = run(vec![w1, w2], 10);
    assert!(r.is_ok());
    assert_eq!(printed(&rt), vec!["Num(1)\n"]);
}

#[test]
fn more_fuel_does_not_change_a_finished_run() {
    let program = || {
        let body = vec![print(var("i")), add_to("i", num(1))];
        vec![let_num("i", 0), SemanticStmt::While { cond: bin(var("i"), Op::Lt, num(3)), body, pos: 0 }]
    };
    let (small, r1) = run(program(), 3);
    let (large, r2) = run(program(), 1000);
    assert!(r1.is_ok() && r2.is_ok());
    assert_eq!(printed(&small), printed(&large));
    let (cut, r3) = run(program(), 2);
    assert!(matches!(r3, Err(Stop::OutOfFuel)));
    assert_eq!(printed(&cut), vec!["Num(0)\n", "Num(1)\n"]);
}

#[test]
fn and_or_skip_the_right_operand_when_the_left_decides() {
    let rt = RunTime::new();
    let lit = |b: bool| SemanticExpr { ty: SemanticType::Bool, kind: SemanticExprKind::Value(SemanticValue::Bool(b)) };
    let and = bin(lit(false), Op::And, var("nowhere"));
    assert!(matches!(rt.eval_semantic_expr(&and), Ok(Value::Bool(false))));
    let or = bin(lit(true), Op::Or, var("nowhere"));
    assert!(matches!(rt.eval_semantic_expr(&or), Ok(Value::Bool(true))));
    let undecided = bin(lit(true), Op::And, var("nowhere"));
    assert!(matches!(rt.eval_semantic_expr(&undecided), Err(Stop::Error(RuntimeError::UndefinedVar { .. }))));
}
