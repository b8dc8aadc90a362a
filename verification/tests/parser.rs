use cx::frontend::ast::{AstValue, CallArg, Expr, Op, ParamKind, Stmt, Type};
use cx::frontend::lexer::tok_collector;
use cx::frontend::parser::{parse_expr, parse_program};

fn program(src: &str) -> Vec<Stmt> {
    let toks = match tok_collector(src) {
        Ok(t) => t,
        Err(e) => panic!("lex error: {}", e.msg),
    };
    let floats = vec![0u64; toks.len()];
    match parse_program(&toks, &floats, src.len()) {
        Ok(p) => p.stmts,
        Err(e) => panic!("parse error at {}: {}", e.pos, e.msg),
    }
}

fn expr(src: &str) -> (Expr, usize) {
    let toks = match tok_collector(src) {
        Ok(t) => t,
        Err(e) => panic!("lex error: {}", e.msg),
    };
    let floats = vec![0u64; toks.len()];
    match parse_expr(&toks, &floats, src.len(), 0) {
        Ok(r) => r,
        Err(e) => panic!("parse error at {}: {}", e.pos, e.msg),
    }
}

#[test]
fn precedence_and_left_association() {
    let (e, end) = expr("1 + 2 * 3 - 4");
    assert_eq!(end, 7);
    assert_eq!(format!("{:?}", e), "Bin(Bin(Val(Num(1)), Plus, 2, Bin(Val(Num(2)), Mul, 6, Val(Num(3)))), Minus, 10, Val(Num(4)))");
    let (e, _) = expr("a == (b + 1)");
    assert_eq!(format!("{:?}", e), "Bin(Ident(\"a\", 0), EqEq, 2, Bin(Ident(\"b\", 6), Plus, 8, Val(Num(1))))");
    let (e, _) = expr("-x * 2");
    assert_eq!(format!("{:?}", e), "Bin(Unary(Minus, Ident(\"x\", 1), 0), Mul, 3, Val(Num(2)))");
}

#[test]
fn calls_fields_and_handles() {
    let (e, _) = expr("f(a.copy, b.copy.free, copy_into(x, y), 1 + 2)");
    match e {
        Expr::Call(name, args, pos) => {
            assert_eq!(name, "f");
            assert_eq!(pos, 0);
            assert!(matches!(&args[0], CallArg::Copy(n) if n == "a"));
            assert!(matches!(&args[1], CallArg::CopyFree(n) if n == "b"));
            assert!(matches!(&args[2], CallArg::CopyInto(ns) if ns == &vec!["x".to_string(), "y".to_string()]));
            assert!(matches!(&args[3], CallArg::Expr(Expr::Bin(_, Op::Plus, _, _))));
        }
        other => panic!("unexpected {:?}", other),
    }
    let (e, _) = expr("t.x");
    assert_eq!(format!("{:?}", e), "DotAccess(\"t\", \"x\")");
    let (e, _) = expr("h.val");
    assert_eq!(format!("{:?}", e), "HandleVal(\"h\", 5)");
    let (e, _) = expr("h.drop()");
    assert_eq!(format!("{:?}", e), "HandleDrop(\"h\", 8)");
    let (e, _) = expr("\"s\"");
    assert_eq!(format!("{:?}", e), "Val(Str(\"s\"))");
}

#[test]
fn statements() {
    let stmts = program("let x; let y: t32; y: t32 = 5; x = y + 1; print(x); print!(y); t.f = 2; { z = 3; } f(1);");
    assert_eq!(stmts.len(), 9);
    assert!(matches!(&stmts[0], Stmt::Decl { name, ty: None, pos: 0 } if name == "x"));
    assert!(matches!(&stmts[1], Stmt::Decl { ty: Some(Type::T32), pos: 7, .. }));
    assert!(matches!(&stmts[2], Stmt::TypedAssign { ty: Type::T32, pos_type: 20, .. }));
    assert!(matches!(&stmts[3], Stmt::Assign { pos_eq: 33, .. }));
    assert!(matches!(&stmts[4], Stmt::Print { pos: 42, .. }));
    assert!(matches!(&stmts[5], Stmt::PrintInline { _pos: 52, .. }));
    assert!(matches!(&stmts[6], Stmt::Assign { target: Expr::DotAccess(_, _), .. }));
    assert!(matches!(&stmts[7], Stmt::Block { stmts, .. } if stmts.len() == 1));
    assert!(matches!(&stmts[8], Stmt::ExprStmt { _pos: 83, .. }));
}

#[test]
fn compound_assignment_and_return() {
    let stmts = program("x + 2 = ; return; return 1;");
    assert!(matches!(&stmts[0], Stmt::CompoundAssign { op: Op::Plus, operand: Expr::Val(AstValue::Num(2)), .. }));
    assert!(matches!(&stmts[1], Stmt::Return { expr: None, pos: 10 }));
    assert!(matches!(&stmts[2], Stmt::Return { expr: Some(_), pos: 18 }));
}

#[test]
fn function_definitions() {
    let stmts = program("fnc add(a: t64, b.copy, c.copy.free, d: copy_into(p, q)) -> t64 { let z; a + b }");
    match &stmts[0] {
        Stmt::FuncDef { name, params, ret_ty, body, ret_expr, pos, .. } => {
            assert_eq!(name, "add");
            assert_eq!(*pos, 0);
            assert!(matches!(&params[0], ParamKind::Typed(n, Type::T64) if n == "a"));
            assert!(matches!(&params[1], ParamKind::Copy(n) if n == "b"));
            assert!(matches!(&params[2], ParamKind::CopyFree(n) if n == "c"));
            assert!(matches!(&params[3], ParamKind::CopyInto(n, ns) if n == "d" && ns.len() == 2));
            assert_eq!(*ret_ty, Some(Type::T64));
            assert_eq!(body.len(), 1);
            assert!(matches!(ret_expr, Some(Expr::Bin(_, Op::Plus, _, _))));
        }
        other => panic!("unexpected {:?}", other),
    }
}

#[test]
fn errors() {
    let src = "let x; )";
    let toks = tok_collector(src).ok().unwrap();
    let floats = vec![0u64; toks.len()];
    let err = parse_program(&toks, &floats, src.len()).err().unwrap();
    assert_eq!(err.msg, "failed to parse statement");
    assert_eq!(err.pos, 7);
    let src = "(1 + 2";
    let toks = tok_collector(src).ok().unwrap();
    let err = parse_expr(&toks, &floats, src.len(), 0).err().unwrap();
    assert_eq!(err.msg, "expected closing ')'");
    assert_eq!(err.pos, 6);
    let src = "1 +";
    let toks = tok_collector(src).ok().unwrap();
    let err = parse_expr(&toks, &floats, src.len(), 0).err().unwrap();
    assert_eq!(err.msg, "expected an expression");
    assert_eq!(err.pos, 3);
}

#[test]
fn float_literals_take_the_given_bits() {
    let src = "1.5";
    let toks = tok_collector(src).ok().unwrap();
    let floats = vec![1.5f64.to_bits()];
    let (e, _) = parse_expr(&toks, &floats, src.len(), 0).ok().unwrap();
    assert_eq!(format!("{:?}", e), format!("Val(Float({}))", 1.5f64.to_bits()));
}
