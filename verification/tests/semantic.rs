use cx::frontend::ast::{AstValue, CallArg, Expr, Op, ParamKind, Program, Stmt, SuperGroupHandler, Type, WhenArm, WhenBody, WhenPattern};
use cx::frontend::semantic::analyze_program;
use cx::frontend::semantic_types::{
    SemanticExpr, SemanticExprKind, SemanticLValue, SemanticStmt, SemanticType, SemanticWhenPattern,
};

fn ident(name: &str) -> Expr {
    Expr::Ident(name.to_string(), 0)
}

fn num(n: u128) -> Expr {
    Expr::Val(AstValue::Num(n))
}

fn float(n: f64) -> Expr {
    Expr::Val(AstValue::Float(n.to_bits()))
}

fn decl(name: &str, pos: usize) -> Stmt {
    Stmt::Decl { name: name.to_string(), ty: None, pos }
}

fn errors_of(program: &Program) -> Vec<(String, usize)> {
    analyze_program(program)
        .expect_err("analysis should fail")
        .into_iter()
        .map(|e| (e.msg, e.pos))
        .collect()
}

#[test]
fn returns_semantic_program_on_success() {
    let program = Program {
        stmts: vec![
            Stmt::Decl { name: "x".to_string(), ty: None, pos: 0 },
            Stmt::Assign { target: ident("x"), expr: num(1), pos_eq: 0 },
        ],
    };

    let semantic = analyze_program(&program).expect("semantic analysis should succeed");
    assert_eq!(semantic.stmts.len(), 2);
}

#[test]
fn resolves_variable_references_to_declarations() {
    let program = Program {
        stmts: vec![
            Stmt::Decl { name: "x".to_string(), ty: None, pos: 0 },
            Stmt::Assign { target: ident("x"), expr: num(1), pos_eq: 0 },
            Stmt::ExprStmt { expr: ident("x"), _pos: 0 },
        ],
    };

    let semantic = analyze_program(&program).unwrap();
    let decl_binding = match &semantic.stmts[0] {
        SemanticStmt::Decl { binding, .. } => *binding,
        other => panic!("unexpected stmt: {:?}", other),
    };
    match &semantic.stmts[2] {
        SemanticStmt::ExprStmt { expr: SemanticExpr { kind: SemanticExprKind::VarRef { binding, .. }, .. }, .. } => {
            assert_eq!(*binding, decl_binding)
        }
        other => panic!("unexpected stmt: {:?}", other),
    }
}

#[test]
fn resolves_function_call_targets() {
    let program = Program {
        stmts: vec![
            Stmt::FuncDef {
                name: "foo".to_string(),
                type_params: vec![],
                params: vec![ParamKind::Typed("a".to_string(), Type::T64)],
                ret_ty: Some(Type::T64),
                body: vec![],
                ret_expr: Some(ident("a")),
                pos: 0,
            },
            Stmt::ExprStmt { expr: Expr::Call("foo".to_string(), vec![CallArg::Expr(num(1))], 0), _pos: 0 },
        ],
    };

    let semantic = analyze_program(&program).unwrap();
    let function_id = match &semantic.stmts[0] {
        SemanticStmt::FuncDef(func) => func.id,
        other => panic!("unexpected stmt: {:?}", other),
    };
    match &semantic.stmts[1] {
        SemanticStmt::ExprStmt { expr: SemanticExpr { kind: SemanticExprKind::Call { function, .. }, .. }, .. } => {
            assert_eq!(*function, function_id)
        }
        other => panic!("unexpected stmt: {:?}", other),
    }
}

#[test]
fn expressions_carry_resolved_types() {
    let program = Program {
        stmts: vec![Stmt::ExprStmt {
            expr: Expr::Bin(Box::new(num(1)), Op::Plus, 0, Box::new(float(2.5))),
            _pos: 0,
        }],
    };

    let semantic = analyze_program(&program).unwrap();
    match &semantic.stmts[0] {
        SemanticStmt::ExprStmt { expr, .. } => assert_eq!(expr.ty, SemanticType::F64),
        other => panic!("unexpected stmt: {:?}", other),
    }
}

#[test]
fn inserts_explicit_casts_for_typed_numeric_assignment() {
    let program = Program {
        stmts: vec![Stmt::TypedAssign { name: "x".to_string(), ty: Type::T64, expr: num(1), pos_type: 0 }],
    };

    let semantic = analyze_program(&program).unwrap();
    match &semantic.stmts[0] {
        SemanticStmt::TypedAssign { expr, .. } => match &expr.kind {
            SemanticExprKind::Cast { to, .. } => assert_eq!(*to, SemanticType::I64),
            other => panic!("expected cast, got {:?}", other),
        },
        other => panic!("unexpected stmt: {:?}", other),
    }
}

#[test]
fn populates_enum_registry_for_declared_enums() {
    let program = Program {
        stmts: vec![Stmt::EnumDef {
            name: "Color".to_string(),
            variants: vec!["Red".to_string(), "Blue".to_string()],
            groups: vec![],
            super_groups: vec![],
            pos: 0,
        }],
    };

    let semantic = analyze_program(&program).unwrap();
    assert_eq!(semantic.enums.len(), 1);
    assert_eq!(semantic.enums[0].name, "Color");
    assert_eq!(semantic.enums[0].variants.len(), 2);
    assert!(semantic.enums[0].groups.is_empty());
}

#[test]
fn accumulates_semantic_errors() {
    let program = Program {
        stmts: vec![
            Stmt::ExprStmt { expr: ident("missing"), _pos: 3 },
            Stmt::Decl { name: "x".to_string(), ty: None, pos: 10 },
            Stmt::Decl { name: "x".to_string(), ty: None, pos: 11 },
        ],
    };

    let errors = analyze_program(&program).expect_err("analysis should fail");
    assert_eq!(errors.len(), 2);
}

// ── Further cases ────────────────────────────────────────────────────────────

#[test]
fn undeclared_and_uninitialized_reads_are_reported_with_positions() {
    let program = Program {
        stmts: vec![
            Stmt::ExprStmt { expr: Expr::Ident("missing".to_string(), 3), _pos: 0 },
            decl("y", 4),
            Stmt::Print { expr: Expr::Ident("y".to_string(), 7), pos: 6 },
        ],
    };
    assert_eq!(
        errors_of(&program),
        vec![
            ("use of undeclared variable 'missing'".to_string(), 3),
            ("use of uninitialized variable 'y'".to_string(), 7),
        ]
    );
}

#[test]
fn redeclaration_in_one_scope_is_an_error_but_shadowing_in_a_block_is_not() {
    let redeclared = Program { stmts: vec![decl("x", 1), decl("x", 2)] };
    assert_eq!(
        errors_of(&redeclared),
        vec![("variable already declared in this scope: x".to_string(), 2)]
    );
    let shadowed = Program {
        stmts: vec![decl("x", 1), Stmt::Block { stmts: vec![decl("x", 2)], _pos: 0 }],
    };
    let semantic = analyze_program(&shadowed).unwrap();
    let outer = match &semantic.stmts[0] {
        SemanticStmt::Decl { binding, .. } => *binding,
        other => panic!("unexpected stmt: {:?}", other),
    };
    match &semantic.stmts[1] {
        SemanticStmt::Block { stmts, .. } => match &stmts[0] {
            SemanticStmt::Decl { binding, .. } => assert_ne!(*binding, outer),
            other => panic!("unexpected stmt: {:?}", other),
        },
        other => panic!("unexpected stmt: {:?}", other),
    }
}

#[test]
fn typed_literal_out_of_range_and_type_mismatch() {
    let program = Program {
        stmts: vec![
            Stmt::TypedAssign { name: "a".to_string(), ty: Type::T8, expr: num(300), pos_type: 5 },
            Stmt::TypedAssign {
                name: "b".to_string(),
                ty: Type::Bool,
                expr: num(1),
                pos_type: 9,
            },
        ],
    };
    assert_eq!(
        errors_of(&program),
        vec![
            ("value 300 overflows type T8 (range -128..127)".to_string(), 5),
            ("type mismatch: expected Bool, got Numeric".to_string(), 9),
        ]
    );
}

#[test]
fn assignment_infers_and_widens_a_numeric_type() {
    let program = Program {
        stmts: vec![
            decl("x", 0),
            Stmt::Assign { target: ident("x"), expr: num(1), pos_eq: 1 },
            Stmt::Assign { target: ident("x"), expr: float(0.5), pos_eq: 2 },
        ],
    };
    let semantic = analyze_program(&program).unwrap();
    match &semantic.stmts[1] {
        SemanticStmt::Assign { target: SemanticLValue::Binding { ty, .. }, .. } => assert_eq!(*ty, SemanticType::I128),
        other => panic!("unexpected stmt: {:?}", other),
    }
    match &semantic.stmts[2] {
        SemanticStmt::Assign { target: SemanticLValue::Binding { ty, .. }, .. } => assert_eq!(*ty, SemanticType::F64),
        other => panic!("unexpected stmt: {:?}", other),
    }
    let bad = Program {
        stmts: vec![
            decl("s", 0),
            Stmt::Assign { target: ident("s"), expr: Expr::Val(AstValue::Str("a".to_string())), pos_eq: 1 },
            Stmt::Assign { target: ident("s"), expr: num(2), pos_eq: 2 },
        ],
    };
    assert_eq!(errors_of(&bad), vec![("type mismatch: expected Str, got Numeric".to_string(), 2)]);
}

#[test]
fn calls_check_arity_arguments_and_unknown_names() {
    let foo = Stmt::FuncDef {
        name: "foo".to_string(),
        type_params: vec![],
        params: vec![ParamKind::Typed("a".to_string(), Type::Bool)],
        ret_ty: None,
        body: vec![],
        ret_expr: None,
        pos: 0,
    };
    let program = Program {
        stmts: vec![
            foo,
            Stmt::ExprStmt { expr: Expr::Call("foo".to_string(), vec![], 4), _pos: 0 },
            Stmt::ExprStmt { expr: Expr::Call("foo".to_string(), vec![CallArg::Expr(num(1))], 5), _pos: 0 },
            Stmt::ExprStmt { expr: Expr::Call("bar".to_string(), vec![], 6), _pos: 0 },
        ],
    };
    assert_eq!(
        errors_of(&program),
        vec![
            ("function 'foo' expects 1 argument(s), got 0".to_string(), 4),
            ("argument 1 to 'foo': expected Bool, got Numeric".to_string(), 5),
            ("call to undefined function 'bar'".to_string(), 6),
        ]
    );
}

#[test]
fn calls_may_precede_the_function_definition() {
    let program = Program {
        stmts: vec![
            Stmt::ExprStmt { expr: Expr::Call("later".to_string(), vec![], 0), _pos: 0 },
            Stmt::FuncDef {
                name: "later".to_string(),
                type_params: vec![],
                params: vec![],
                ret_ty: Some(Type::Bool),
                body: vec![],
                ret_expr: Some(Expr::Val(AstValue::Bool(true))),
                pos: 1,
            },
        ],
    };
    let semantic = analyze_program(&program).unwrap();
    match &semantic.stmts[0] {
        SemanticStmt::ExprStmt { expr, .. } => assert_eq!(expr.ty, SemanticType::Bool),
        other => panic!("unexpected stmt: {:?}", other),
    }
}

#[test]
fn unknown_propagates_and_is_rejected_as_a_loop_condition() {
    let unknown = || Expr::Val(AstValue::Unknown);
    let program = Program {
        stmts: vec![Stmt::ExprStmt { expr: Expr::Bin(Box::new(num(1)), Op::Plus, 0, Box::new(unknown())), _pos: 0 }],
    };
    let semantic = analyze_program(&program).unwrap();
    match &semantic.stmts[0] {
        SemanticStmt::ExprStmt { expr, .. } => assert_eq!(expr.ty, SemanticType::Unknown),
        other => panic!("unexpected stmt: {:?}", other),
    }
    let looped = Program { stmts: vec![Stmt::While { cond: unknown(), body: vec![], pos: 8 }] };
    assert_eq!(
        errors_of(&looped),
        vec![("Unknown value cannot be used as a loop condition â€” control-critical context".to_string(), 8)]
    );
}

#[test]
fn operator_type_errors() {
    let s = || Expr::Val(AstValue::Str("a".to_string()));
    let program = Program {
        stmts: vec![
            Stmt::ExprStmt { expr: Expr::Bin(Box::new(s()), Op::Minus, 1, Box::new(num(1))), _pos: 0 },
            Stmt::ExprStmt { expr: Expr::Bin(Box::new(s()), Op::EqEq, 2, Box::new(num(1))), _pos: 0 },
            Stmt::ExprStmt { expr: Expr::Bin(Box::new(num(1)), Op::And, 3, Box::new(num(1))), _pos: 0 },
        ],
    };
    assert_eq!(
        errors_of(&program),
        vec![
            ("arithmetic requires numeric operands, got Str and Numeric".to_string(), 1),
            ("cannot compare Str == Numeric".to_string(), 2),
            ("logical operation requires bool operands, got Numeric and Numeric".to_string(), 3),
        ]
    );
}

#[test]
fn returns_are_checked_against_the_function() {
    let f = |ret_ty: Option<Type>, body: Vec<Stmt>, pos: usize| Stmt::FuncDef {
        name: format!("f{}", pos),
        type_params: vec![],
        params: vec![],
        ret_ty,
        body,
        ret_expr: None,
        pos,
    };
    let program = Program {
        stmts: vec![
            Stmt::Return { expr: None, pos: 1 },
            f(Some(Type::T32), vec![], 2),
            f(None, vec![Stmt::Return { expr: Some(num(1)), pos: 3 }], 30),
            f(Some(Type::Bool), vec![Stmt::Return { expr: Some(num(1)), pos: 4 }], 40),
            f(Some(Type::T32), vec![Stmt::Return { expr: Some(num(1)), pos: 5 }], 50),
        ],
    };
    assert_eq!(
        errors_of(&program),
        vec![
            ("return used outside function body".to_string(), 1),
            ("missing return value, expected Numeric".to_string(), 2),
            ("unexpected return value in void function".to_string(), 3),
            ("return type mismatch: expected Bool, got Numeric".to_string(), 4),
        ]
    );
}

#[test]
fn for_loop_variable_is_read_only() {
    let program = Program {
        stmts: vec![Stmt::For {
            var: "i".to_string(),
            start: num(0),
            end: num(3),
            inclusive: false,
            body: vec![Stmt::Assign { target: ident("i"), expr: num(1), pos_eq: 0 }],
            pos: 12,
        }],
    };
    assert_eq!(errors_of(&program), vec![("loop variable 'i' is read-only".to_string(), 12)]);
}

#[test]
fn enum_groups_and_when_patterns_resolve() {
    let program = Program {
        stmts: vec![
            Stmt::EnumDef {
                name: "Kind".to_string(),
                variants: vec!["Plain".to_string()],
                groups: vec![("Hostile".to_string(), vec!["Grunt".to_string(), "Elite".to_string()])],
                super_groups: vec![],
                pos: 0,
            },
            Stmt::When {
                expr: Expr::Val(AstValue::EnumVariant("Kind".to_string(), "Elite".to_string())),
                arms: vec![
                    WhenArm {
                        pattern: WhenPattern::EnumVariant("Kind".to_string(), "Elite".to_string()),
                        body: WhenBody::Stmts(vec![]),
                        pos: 1,
                    },
                    WhenArm { pattern: WhenPattern::Group("Kind".to_string(), "Hostile".to_string()), body: WhenBody::Stmts(vec![]), pos: 2 },
                    WhenArm { pattern: WhenPattern::Catchall, body: WhenBody::Stmts(vec![]), pos: 3 },
                ],
                pos: 0,
            },
        ],
    };
    let semantic = analyze_program(&program).unwrap();
    let e = &semantic.enums[0];
    assert_eq!(e.variants.len(), 3);
    assert_eq!(e.variants[2].name, "Elite");
    assert_eq!(e.variants[2].group, Some("Hostile".to_string()));
    assert_eq!(e.groups.len(), 1);
    assert_eq!(e.groups[0].variants, vec![e.variants[1].id, e.variants[2].id]);
    match &semantic.stmts[1] {
        SemanticStmt::When { arms, .. } => {
            match &arms[0].pattern {
                SemanticWhenPattern::EnumVariant { enum_id, variant_id, .. } => {
                    assert_eq!(*enum_id, Some(e.id));
                    assert_eq!(*variant_id, Some(e.variants[2].id));
                }
                other => panic!("unexpected pattern: {:?}", other),
            }
            assert_eq!(arms[1].pattern, SemanticWhenPattern::Catchall);
        }
        other => panic!("unexpected stmt: {:?}", other),
    }
}

#[test]
fn when_super_group_handlers_are_checked() {
    let enum_def = Stmt::EnumDef {
        name: "Kind".to_string(),
        variants: vec![],
        groups: vec![],
        super_groups: vec![(
            "Actor".to_string(),
            vec![
                ("Friend".to_string(), vec!["Ally".to_string()]),
                ("Foe".to_string(), vec!["Grunt".to_string()]),
            ],
        )],
        pos: 0,
    };
    let scrutinee = || Expr::Val(AstValue::EnumVariant("Kind".to_string(), "Ally".to_string()));
    let program = Program {
        stmts: vec![
            enum_def,
            Stmt::When {
                expr: scrutinee(),
                arms: vec![WhenArm { pattern: WhenPattern::Group("Kind".to_string(), "Nope".to_string()), body: WhenBody::Stmts(vec![]), pos: 0 }],
                pos: 21,
            },
            Stmt::When {
                expr: scrutinee(),
                arms: vec![WhenArm {
                    pattern: WhenPattern::Group("Kind".to_string(), "Actor".to_string()),
                    body: WhenBody::SuperGroup(vec![SuperGroupHandler::Placeholder]),
                    pos: 0,
                }],
                pos: 22,
            },
            Stmt::When {
                expr: scrutinee(),
                arms: vec![WhenArm {
                    pattern: WhenPattern::Group("Kind".to_string(), "Actor".to_string()),
                    body: WhenBody::SuperGroup(vec![SuperGroupHandler::Placeholder, SuperGroupHandler::Stmts(vec![])]),
                    pos: 0,
                }],
                pos: 23,
            },
        ],
    };
    assert_eq!(
        errors_of(&program),
        vec![
            ("'Nope' is not a known group or super-group name".to_string(), 21),
            ("super-group 'Actor' has 2 sub-groups but 1 handlers were provided".to_string(), 22),
            (
                "{_} at position 1 covers sub-group 'Friend' but no explicit arm for 'Friend' exists in this when block"
                    .to_string(),
                23
            ),
        ]
    );
}

#[test]
fn handles_and_copy_arguments_resolve() {
    let program = Program {
        stmts: vec![
            Stmt::TypedAssign { name: "h".to_string(), ty: Type::T64, expr: num(1), pos_type: 0 },
            Stmt::ExprStmt {
                expr: Expr::HandleNew(Box::new(Expr::Val(AstValue::Str("a".to_string()))), 1),
                _pos: 0,
            },
            Stmt::ExprStmt { expr: Expr::Call("is_known".to_string(), vec![CallArg::Expr(ident("h"))], 2), _pos: 0 },
            Stmt::ExprStmt { expr: Expr::Call("g".to_string(), vec![CallArg::Copy("nope".to_string())], 3), _pos: 0 },
            Stmt::FuncDef {
                name: "g".to_string(),
                type_params: vec![],
                params: vec![ParamKind::Copy("p".to_string())],
                ret_ty: None,
                body: vec![],
                ret_expr: None,
                pos: 4,
            },
        ],
    };
    assert_eq!(errors_of(&program), vec![("'.copy' argument 'nope' has not been declared".to_string(), 3)]);
}

#[test]
fn a_failing_block_still_closes_its_scope() {
    let block = Stmt::Block {
        stmts: vec![decl("x", 1), Stmt::Assign { target: ident("y"), expr: num(1), pos_eq: 5 }],
        _pos: 0,
    };
    // Were the block's scope left open, the second `x` would be a redeclaration.
    let program = Program { stmts: vec![block, decl("x", 9)] };
    let errs = errors_of(&program);
    assert_eq!(errs.len(), 1);
    assert_eq!(errs[0].1, 5);
}

#[test]
fn small_programs_fit_the_id_budget() {
    let program = Program { stmts: vec![decl("x", 0), decl("y", 2)] };
    assert!(cx::frontend::cost::program_fits(&program));
    assert!(analyze_program(&program).is_ok());
}
