use cx::frontend::ast::{Op, Type};
use cx::operators::{apply_op, unresolved_var_error, OpOutcome, RuntimeError, Value};

fn done(r: Result<OpOutcome, RuntimeError>) -> String {
    match r {
        Ok(OpOutcome::Done(v)) => format!("{:?}", v),
        Ok(OpOutcome::FloatArith { op, .. }) => format!("float {:?}", op),
        Err(e) => format!("error {:?}", e),
    }
}

#[test]
fn integer_arithmetic_saturates() {
    assert_eq!(done(apply_op(Value::Num(2), Op::Plus, 0, Value::Num(3))), "Num(5)");
    assert_eq!(done(apply_op(Value::Num(u128::MAX), Op::Plus, 0, Value::Num(1))), format!("Num({})", u128::MAX));
    assert_eq!(done(apply_op(Value::Num(2), Op::Minus, 0, Value::Num(3))), "Num(0)");
    assert_eq!(done(apply_op(Value::Num(u128::MAX), Op::Mul, 0, Value::Num(2))), format!("Num({})", u128::MAX));
    assert_eq!(done(apply_op(Value::Num(7), Op::Div, 0, Value::Num(2))), "Num(3)");
    assert_eq!(done(apply_op(Value::Num(7), Op::Mod, 0, Value::Num(4))), "Num(3)");
}

#[test]
fn division_by_zero_is_an_error() {
    assert_eq!(done(apply_op(Value::Num(7), Op::Div, 9, Value::Num(0))), "error DivByZero { pos: 9 }");
    assert_eq!(done(apply_op(Value::Num(7), Op::Mod, 4, Value::Num(0))), "error DivByZero { pos: 4 }");
}

#[test]
fn floats_are_handed_back() {
    assert_eq!(done(apply_op(Value::Num(1), Op::Plus, 0, Value::Float(0))), "float Plus");
    assert_eq!(done(apply_op(Value::Float(0), Op::EqEq, 0, Value::Float(0))), "float EqEq");
}

#[test]
fn comparisons_and_equality() {
    assert_eq!(done(apply_op(Value::Num(1), Op::Lt, 0, Value::Num(2))), "Bool(true)");
    assert_eq!(done(apply_op(Value::Num(2), Op::GtEq, 0, Value::Num(2))), "Bool(true)");
    assert_eq!(done(apply_op(Value::Str("a".into()), Op::EqEq, 0, Value::Str("a".into()))), "Bool(true)");
    assert_eq!(done(apply_op(Value::Char('a'), Op::EqEq, 0, Value::Char('b'))), "Bool(false)");
    assert_eq!(done(apply_op(Value::TBool(2), Op::EqEq, 0, Value::Num(1))), "TBool(2)");
    assert_eq!(done(apply_op(Value::TBool(1), Op::EqEq, 0, Value::Bool(true))), "Bool(true)");
    assert_eq!(
        done(apply_op(Value::Str("a".into()), Op::Lt, 3, Value::Num(1))),
        "error BadOperands { pos: 3, op: Lt, left: Str(\"a\"), right: Num(1) }"
    );
}

#[test]
fn unknown_propagates_unless_decided() {
    assert_eq!(done(apply_op(Value::Bool(false), Op::And, 0, Value::Unknown(Type::Bool))), "Bool(false)");
    assert_eq!(done(apply_op(Value::Unknown(Type::Bool), Op::Or, 0, Value::Bool(true))), "Bool(true)");
    assert_eq!(done(apply_op(Value::Num(0), Op::Mul, 0, Value::Unknown(Type::T32))), "Num(0)");
    assert_eq!(done(apply_op(Value::Num(1), Op::Plus, 0, Value::Unknown(Type::T32))), "Unknown(T32)");
    assert_eq!(done(apply_op(Value::Unknown(Type::T8), Op::Plus, 0, Value::Unknown(Type::T32))), "Unknown(T8)");
}

#[test]
fn three_valued_logic() {
    assert_eq!(done(apply_op(Value::TBool(2), Op::And, 0, Value::TBool(0))), "TBool(0)");
    assert_eq!(done(apply_op(Value::TBool(2), Op::Or, 0, Value::TBool(1))), "TBool(1)");
    assert_eq!(done(apply_op(Value::TBool(2), Op::And, 0, Value::TBool(1))), "TBool(2)");
    assert_eq!(done(apply_op(Value::Bool(true), Op::And, 0, Value::TBool(2))), "TBool(2)");
    assert_eq!(done(apply_op(Value::Bool(false), Op::Or, 0, Value::TBool(2))), "TBool(2)");
    assert_eq!(done(apply_op(Value::Bool(true), Op::Or, 0, Value::TBool(2))), "TBool(1)");
    assert_eq!(done(apply_op(Value::Bool(true), Op::And, 0, Value::Bool(false))), "Bool(false)");
}

#[test]
fn unresolved_variables() {
    assert!(matches!(unresolved_var_error(3, "x".into(), true), RuntimeError::OutOfScope { pos: 3, .. }));
    assert!(matches!(unresolved_var_error(3, "x".into(), false), RuntimeError::UndefinedVar { pos: 3, .. }));
}
