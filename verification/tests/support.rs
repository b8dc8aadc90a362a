use cx::diagnostics::{indent, lexer_error_message, locate, runtime_error_text, summary_label, DebugFlags};
use cx::operators::RuntimeError;
use cx::frontend::ast::{ParamKind, Type};
use cx::frontend::semantic_types::{SemanticParamKind, SemanticType};
use cx::ir::monomorphize::{contains_type_param, MonomorphizeError};
use cx::runtime::{
    is_ident, param_from_semantic, parse_template, semantic_param_to_ast, semantic_type_to_ast, type_from_semantic,
    TemplateError, TemplatePart,
};

#[test]
fn lexer_error_message_quotes_the_slice() {
    assert_eq!(lexer_error_message("$"), "unrecognized token \"$\" — this character is not valid in Cx");
    assert_eq!(lexer_error_message("\""), "unrecognized token \"\\\"\" — this character is not valid in Cx");
}

#[test]
fn indent_is_two_spaces_per_level() {
    assert_eq!(indent(0), "");
    assert_eq!(indent(3), "      ");
}

#[test]
fn summary_label_counts_errors() {
    assert_eq!(summary_label(0), None);
    assert_eq!(summary_label(1), Some("── 1 error found ──".to_string()));
    assert_eq!(summary_label(12), Some("── 12 errors found ──".to_string()));
}

#[test]
fn locate_finds_line_and_column() {
    let src = b"ab\ncd\r\nef";
    let l = locate(src, 4);
    assert_eq!((l.line_no, l.line_start, l.line_end, l.col), (2, 3, 5, 1));
    let end = locate(src, 100);
    assert_eq!((end.line_no, end.line_start, end.line_end, end.col), (3, 7, 9, 2));
    let first = locate(src, 0);
    assert_eq!((first.line_no, first.line_start, first.line_end, first.col), (1, 0, 2, 0));
    let empty = locate(b"", 5);
    assert_eq!((empty.line_no, empty.line_start, empty.line_end, empty.col), (1, 0, 0, 0));
}

#[test]
fn debug_flags_from_args() {
    let args = vec!["cx".to_string(), "prog.cx".to_string(), "--debug-ast".to_string()];
    let f = DebugFlags::from_args(&args);
    assert!(f.ast && !f.tokens && !f.scope && !f.step && !f.phase);
    let all = DebugFlags::from_args(&vec!["--debug".to_string()]);
    assert!(all.ast && all.tokens && all.scope && all.step && all.phase);
}

#[test]
fn identifiers() {
    assert!(is_ident("_a1"));
    assert!(is_ident("naïve"));
    assert!(!is_ident("1a"));
    assert!(!is_ident(""));
    assert!(!is_ident("a-b"));
}

#[test]
fn semantic_types_map_back_to_declared_types() {
    assert_eq!(semantic_type_to_ast(&SemanticType::Handle(Box::new(SemanticType::F64))), Type::Handle(Box::new(Type::T64)));
    assert_eq!(semantic_type_to_ast(&SemanticType::Numeric), Type::T64);
    assert_eq!(semantic_type_to_ast(&SemanticType::Enum("E".to_string())), Type::Enum("E".to_string()));
    assert_eq!(type_from_semantic(SemanticType::Numeric), Type::T128);
    assert_eq!(type_from_semantic(SemanticType::Unknown), Type::Unknown);
    assert_eq!(type_from_semantic(SemanticType::I16), Type::T16);
    match semantic_param_to_ast(&SemanticParamKind::Typed) {
        ParamKind::Typed(n, t) => {
            assert_eq!(n, "_");
            assert_eq!(t, Type::T64);
        }
        other => panic!("unexpected {:?}", other),
    }
    match param_from_semantic(SemanticParamKind::Copy) {
        ParamKind::Copy(n) => assert_eq!(n, ""),
        other => panic!("unexpected {:?}", other),
    }
}

#[test]
fn templates_split_into_text_and_placeholders() {
    let t = parse_template("a{x}b{ y :?}");
    assert_eq!(
        t.parts,
        vec![
            TemplatePart::Literal('a'),
            TemplatePart::Value { name: "x".to_string(), debug: false },
            TemplatePart::Literal('b'),
            TemplatePart::Value { name: "y".to_string(), debug: true },
        ]
    );
    assert_eq!(t.error, None);
    let bad = parse_template("ok{1x}{y}");
    assert_eq!(bad.parts, vec![TemplatePart::Literal('o'), TemplatePart::Literal('k')]);
    assert_eq!(bad.error, Some(TemplateError::InvalidPlaceholder("1x".to_string())));
    let fmt = parse_template("{x:d}");
    assert_eq!(fmt.error, Some(TemplateError::InvalidFormat("d".to_string())));
    let open = parse_template("a{x");
    assert_eq!(open.parts, vec![TemplatePart::Literal('a'), TemplatePart::Value { name: "x".to_string(), debug: false }]);
}

#[test]
fn monomorphize_errors_and_type_params() {
    let e = MonomorphizeError::InstantiationExplosion {
        template: "grow".to_string(),
        cap: 64,
        seen: vec!["grow$t64".to_string(), "grow$bool".to_string()],
    };
    assert_eq!(
        e.message(),
        "generic function 'grow' exceeded 64 distinct instantiations — this usually means a recursive call instantiates it at an ever-larger type. First instantiations were: grow$t64, grow$bool"
    );
    let c = MonomorphizeError::NameCollision { mangled: "f$t64".to_string(), template: "f".to_string() };
    assert_eq!(c.message(), "specialization of 'f' would be named 'f$t64', which is already defined");
    assert!(contains_type_param(&SemanticType::Handle(Box::new(SemanticType::TypeParam("T".to_string())))));
    assert!(!contains_type_param(&SemanticType::Handle(Box::new(SemanticType::I64))));
}

#[test]
fn runtime_error_messages_name_the_variable() {
    let (msg, pos) = runtime_error_text(&RuntimeError::UndefinedVar { pos: 9, name: "x".to_string() });
    assert_eq!(
        msg.unwrap(),
        "variable 'x' has not been declared — declare it with 'let x' or 'x: TYPE = value' before use"
    );
    assert_eq!(pos, 9);
    let (msg, _) = runtime_error_text(&RuntimeError::TemplateInvalidPlaceholder { pos: 1, placeholder: "a b".to_string() });
    assert_eq!(msg.unwrap(), "invalid template placeholder '{a b}' — only {NAME} or {NAME:?} are allowed");
    let (msg, pos) = runtime_error_text(&RuntimeError::DivByZero { pos: 7 });
    assert_eq!(msg.unwrap(), "division by zero — the right-hand side of '/' evaluated to 0");
    assert_eq!(pos, 7);
    let (msg, pos) = runtime_error_text(&RuntimeError::TypeMismatch {
        pos: 3,
        expected: Type::Enum("Color".to_string()),
        got: Type::Handle(Box::new(Type::T128)),
    });
    assert_eq!(msg.unwrap(), "type mismatch — expected 'Enum(\"Color\")' but got 'Handle(T128)'");
    assert_eq!(pos, 3);
    let (msg, pos) = runtime_error_text(&RuntimeError::BadOperands {
        pos: 5,
        op: cx::frontend::ast::Op::Plus,
        left: cx::operators::Value::Bool(true),
        right: cx::operators::Value::Num(1),
    });
    assert!(msg.is_none());
    assert_eq!(pos, 5);
    let (msg, pos) = runtime_error_text(&RuntimeError::EarlyReturn(cx::operators::Value::Num(1)));
    assert_eq!(msg.unwrap(), "return statement used outside of a function body");
    assert_eq!(pos, 0);
}
