//! Run-time values and the binary operators of the interpreter, with the
//! three-valued logic of `Unknown` and `TBool`.
use vstd::prelude::*;
use crate::frontend::ast::{Op, Type};
use crate::frontend::semantic::str_eq_string;
use crate::handle::Handle;

verus! {

/// A value at run time. Floats are carried as their IEEE-754 bit pattern;
/// a `TBool` is 0 (false), 1 (true) or 2 (unknown).
#[derive(Debug)]
pub enum Value {
    Num(u128),
    Float(u64),
    Str(String),
    Bool(bool),
    Char(char),
    TBool(u8),
    EnumVariant(String, String),
    Unknown(Type),
    /// A handle into the run time's handle registry.
    Handle(Handle),
}

/// A variable's record: its declared type and its value, each if known.
#[derive(Debug)]
pub struct VarEntry {
    pub ty: Option<Type>,
    pub val: Option<Value>,
}

/// What can go wrong at run time.
#[derive(Debug)]
pub enum RuntimeError {
    DivByZero { pos: usize },
    BadOperands { pos: usize, op: Op, left: Value, right: Value },
    TypeMismatch { pos: usize, expected: Type, got: Type },
    AlreadyDeclared { pos: usize, name: String },
    UndefinedVar { pos: usize, name: String },
    OutOfScope { pos: usize, name: String },
    UninitializedVar { pos: usize, name: String },
    TemplateInvalidPlaceholder { pos: usize, placeholder: String },
    TemplateInvalidFormat { pos: usize, spec: String },
    BadAssignTarget { pos: usize },
    NotAContainer { pos: usize, name: String },
    EarlyReturn(Value),
    /// A handle whose value has been dropped, or a value that is no handle,
    /// was read or dropped through.
    StaleHandle { pos: usize },
    /// A `break` on its way to the loop it leaves.
    BreakSignal,
    /// A `continue` on its way to the loop it resumes.
    ContinueSignal,
}

/// The error for a variable that cannot be read: out of scope where it was
/// seen before, undefined otherwise.
pub fn unresolved_var_error(pos: usize, name: String, was_seen: bool) -> (e: RuntimeError)
    ensures
        e == (if was_seen {
            RuntimeError::OutOfScope { pos, name }
        } else {
            RuntimeError::UndefinedVar { pos, name }
        }),
{
    if was_seen {
        RuntimeError::OutOfScope { pos, name }
    } else {
        RuntimeError::UndefinedVar { pos, name }
    }
}

/// What applying an operator gives: a value, or float arithmetic (or a
/// float comparison) on two numeric operands, at least one of them a
/// float, which the caller carries out.
#[derive(Debug)]
pub enum OpOutcome {
    Done(Value),
    FloatArith { op: Op, left: Value, right: Value },
}

/// A number or a float.
pub open spec fn is_numeric_value(v: Value) -> bool {
    v is Num || v is Float
}

/// Whether a numeric value is zero: the integer 0, or a float of either
/// sign whose bits are otherwise all clear.
pub open spec fn is_zero_value(v: Value) -> bool {
    v == Value::Num(0) || v == Value::Float(0) || v == Value::Float(0x8000_0000_0000_0000)
}

/// Arithmetic on two numeric operands: saturating on two integers, float
/// arithmetic otherwise; a division or remainder by zero (integer or
/// float) fails before any float arithmetic.
pub open spec fn arith_rule(left: Value, op: Op, pos: usize, right: Value) -> Result<OpOutcome, RuntimeError> {
    match (left, right) {
        (Value::Num(a), Value::Num(b)) => match op {
            Op::Plus => Ok(OpOutcome::Done(Value::Num(if a + b > u128::MAX { u128::MAX } else { (a + b) as u128 }))),
            Op::Minus => Ok(OpOutcome::Done(Value::Num(if a < b { 0 } else { (a - b) as u128 }))),
            Op::Mul => Ok(OpOutcome::Done(Value::Num(if a * b > u128::MAX { u128::MAX } else { (a * b) as u128 }))),
            Op::Div => if b == 0 {
                Err(RuntimeError::DivByZero { pos })
            } else {
                Ok(OpOutcome::Done(Value::Num(a / b)))
            },
            _ => if b == 0 {
                Err(RuntimeError::DivByZero { pos })
            } else {
                Ok(OpOutcome::Done(Value::Num(a % b)))
            },
        },
        (l, r) => if is_numeric_value(l) && is_numeric_value(r) {
            if (op == Op::Div || op == Op::Mod) && is_zero_value(r) {
                Err(RuntimeError::DivByZero { pos })
            } else {
                Ok(OpOutcome::FloatArith { op, left: l, right: r })
            }
        } else {
            Err(RuntimeError::BadOperands { pos, op, left: l, right: r })
        },
    }
}

/// `==` on two values.
pub open spec fn eq_rule(left: Value, pos: usize, right: Value) -> Result<OpOutcome, RuntimeError> {
    match (left, right) {
        (Value::Num(a), Value::Num(b)) => Ok(OpOutcome::Done(Value::Bool(a == b))),
        (Value::Float(_), Value::Float(_)) | (Value::Num(_), Value::Float(_)) | (Value::Float(_), Value::Num(_)) => Ok(
            OpOutcome::FloatArith { op: Op::EqEq, left, right },
        ),
        (Value::Str(a), Value::Str(b)) => Ok(OpOutcome::Done(Value::Bool(a@ == b@))),
        (Value::Char(a), Value::Char(b)) => Ok(OpOutcome::Done(Value::Bool(a == b))),
        (Value::Bool(a), Value::Bool(b)) => Ok(OpOutcome::Done(Value::Bool(a == b))),
        (Value::TBool(a), Value::TBool(b)) => if a == 2 || b == 2 {
            Ok(OpOutcome::Done(Value::TBool(2)))
        } else {
            Ok(OpOutcome::Done(Value::Bool(a == b)))
        },
        (Value::TBool(a), Value::Bool(b)) => if a == 2 {
            Ok(OpOutcome::Done(Value::TBool(2)))
        } else {
            Ok(OpOutcome::Done(Value::Bool((a == 1) == b)))
        },
        (Value::Bool(a), Value::TBool(b)) => if b == 2 {
            Ok(OpOutcome::Done(Value::TBool(2)))
        } else {
            Ok(OpOutcome::Done(Value::Bool(a == (b == 1))))
        },
        (l, r) => if l == Value::TBool(2) || r == Value::TBool(2) {
            Ok(OpOutcome::Done(Value::TBool(2)))
        } else {
            Err(RuntimeError::BadOperands { pos, op: Op::EqEq, left: l, right: r })
        },
    }
}

/// An ordering comparison: only between two integers.
pub open spec fn cmp_rule(left: Value, op: Op, pos: usize, right: Value) -> Result<OpOutcome, RuntimeError> {
    match (left, right) {
        (Value::Num(a), Value::Num(b)) => Ok(OpOutcome::Done(Value::Bool(match op {
            Op::Lt => a < b,
            Op::Gt => a > b,
            Op::LtEq => a <= b,
            _ => a >= b,
        }))),
        (l, r) => Err(RuntimeError::BadOperands { pos, op, left: l, right: r }),
    }
}

/// Three-valued `and` (`is_and`) or `or` of two truth values.
pub open spec fn tbool_rule(is_and: bool, a: u8, b: u8) -> u8 {
    if is_and {
        if a == 0 || b == 0 { 0 } else if a == 1 && b == 1 { 1 } else { 2 }
    } else {
        if a == 1 || b == 1 { 1 } else if a == 0 && b == 0 { 0 } else { 2 }
    }
}

/// `and` / `or` on booleans and three-valued booleans.
pub open spec fn logic_rule(left: Value, op: Op, pos: usize, right: Value) -> Result<OpOutcome, RuntimeError> {
    let is_and = op == Op::And;
    match (left, right) {
        (Value::Bool(a), Value::Bool(b)) => Ok(OpOutcome::Done(Value::Bool(if is_and { a && b } else { a || b }))),
        (Value::TBool(a), Value::TBool(b)) => Ok(OpOutcome::Done(Value::TBool(tbool_rule(is_and, a, b)))),
        (Value::Bool(a), Value::TBool(b)) => Ok(OpOutcome::Done(Value::TBool(
            if a == is_and { b } else if is_and { 0 } else { 1 },
        ))),
        (Value::TBool(a), Value::Bool(b)) => Ok(OpOutcome::Done(Value::TBool(
            if b == is_and { a } else if is_and { 0 } else { 1 },
        ))),
        (l, r) => Err(RuntimeError::BadOperands { pos, op, left: l, right: r }),
    }
}

/// The short cuts tried before the operator's own rule: `false and X`,
/// `true or X`, `0 * X` decide without an `Unknown` operand; a `TBool`
/// 0 decides `and`, 1 decides `or`; otherwise any `Unknown` operand makes
/// the result `Unknown` (the left one's type first).
pub open spec fn shortcut(left: Value, op: Op, right: Value) -> Option<Value> {
    if op == Op::And && ((left == Value::Bool(false) && right is Unknown) || (left is Unknown && right
        == Value::Bool(false))) {
        Some(Value::Bool(false))
    } else if op == Op::Or && ((left == Value::Bool(true) && right is Unknown) || (left is Unknown && right
        == Value::Bool(true))) {
        Some(Value::Bool(true))
    } else if op == Op::And && (left == Value::TBool(0) || right == Value::TBool(0)) {
        Some(Value::TBool(0))
    } else if op == Op::Or && (left == Value::TBool(1) || right == Value::TBool(1)) {
        Some(Value::TBool(1))
    } else if op == Op::Mul && ((left is Unknown && right == Value::Num(0)) || (left == Value::Num(0)
        && right is Unknown)) {
        Some(Value::Num(0))
    } else if left is Unknown {
        Some(left)
    } else if right is Unknown {
        Some(right)
    } else {
        None
    }
}

/// What applying `op` to two values gives (see the rules above).
pub open spec fn op_rule(left: Value, op: Op, pos: usize, right: Value) -> Result<OpOutcome, RuntimeError> {
    match shortcut(left, op, right) {
        Some(v) => Ok(OpOutcome::Done(v)),
        None => match op {
            Op::Plus | Op::Minus | Op::Mul | Op::Div | Op::Mod => arith_rule(left, op, pos, right),
            Op::EqEq => eq_rule(left, pos, right),
            Op::Lt | Op::Gt | Op::LtEq | Op::GtEq => cmp_rule(left, op, pos, right),
            Op::And | Op::Or => logic_rule(left, op, pos, right),
        },
    }
}

/// Integer operands: `<` and `>` are strict and `<=`, `>=` are not, each
/// agreeing with the comparison of the two numbers (so `x > x` is false and
/// `x > y` is `y < x`); `==` is equality of the numbers; `+`, `-` and `*`
/// saturate at the bounds of `u128`; `/` and `%` give quotient and
/// remainder, and fail only on a zero divisor.
pub proof fn law_integer_operators(a: u128, b: u128, pos: usize)
    ensures
        op_rule(Value::Num(a), Op::Lt, pos, Value::Num(b)) == Ok::<OpOutcome, RuntimeError>(OpOutcome::Done(Value::Bool(a < b))),
        op_rule(Value::Num(a), Op::Gt, pos, Value::Num(b)) == Ok::<OpOutcome, RuntimeError>(OpOutcome::Done(Value::Bool(a > b))),
        op_rule(Value::Num(a), Op::LtEq, pos, Value::Num(b)) == Ok::<OpOutcome, RuntimeError>(OpOutcome::Done(Value::Bool(a <= b))),
        op_rule(Value::Num(a), Op::GtEq, pos, Value::Num(b)) == Ok::<OpOutcome, RuntimeError>(OpOutcome::Done(Value::Bool(a >= b))),
        op_rule(Value::Num(a), Op::Gt, pos, Value::Num(b)) == op_rule(Value::Num(b), Op::Lt, pos, Value::Num(a)),
        op_rule(Value::Num(a), Op::GtEq, pos, Value::Num(b)) == op_rule(Value::Num(b), Op::LtEq, pos, Value::Num(a)),
        op_rule(Value::Num(a), Op::Gt, pos, Value::Num(a)) == Ok::<OpOutcome, RuntimeError>(OpOutcome::Done(Value::Bool(false))),
        op_rule(Value::Num(a), Op::Lt, pos, Value::Num(a)) == Ok::<OpOutcome, RuntimeError>(OpOutcome::Done(Value::Bool(false))),
        op_rule(Value::Num(a), Op::EqEq, pos, Value::Num(b)) == Ok::<OpOutcome, RuntimeError>(OpOutcome::Done(Value::Bool(a == b))),
        a + b <= u128::MAX ==> op_rule(Value::Num(a), Op::Plus, pos, Value::Num(b)) == Ok::<OpOutcome, RuntimeError>(
            OpOutcome::Done(Value::Num((a + b) as u128)),
        ),
        a + b > u128::MAX ==> op_rule(Value::Num(a), Op::Plus, pos, Value::Num(b)) == Ok::<OpOutcome, RuntimeError>(
            OpOutcome::Done(Value::Num(u128::MAX)),
        ),
        b <= a ==> op_rule(Value::Num(a), Op::Minus, pos, Value::Num(b)) == Ok::<OpOutcome, RuntimeError>(
            OpOutcome::Done(Value::Num((a - b) as u128)),
        ),
        a < b ==> op_rule(Value::Num(a), Op::Minus, pos, Value::Num(b)) == Ok::<OpOutcome, RuntimeError>(
            OpOutcome::Done(Value::Num(0)),
        ),
        a * b <= u128::MAX ==> op_rule(Value::Num(a), Op::Mul, pos, Value::Num(b)) == Ok::<OpOutcome, RuntimeError>(
            OpOutcome::Done(Value::Num((a * b) as u128)),
        ),
        a * b > u128::MAX ==> op_rule(Value::Num(a), Op::Mul, pos, Value::Num(b)) == Ok::<OpOutcome, RuntimeError>(
            OpOutcome::Done(Value::Num(u128::MAX)),
        ),
        b != 0 ==> ({
            let q = op_rule(Value::Num(a), Op::Div, pos, Value::Num(b));
            let r = op_rule(Value::Num(a), Op::Mod, pos, Value::Num(b));
            &&& q is Ok && q->Ok_0 is Done && q->Ok_0->Done_0 is Num
            &&& r is Ok && r->Ok_0 is Done && r->Ok_0->Done_0 is Num
            &&& ({
                let qv = q->Ok_0->Done_0->Num_0;
                let rv = r->Ok_0->Done_0->Num_0;
                a == qv * b + rv && rv < b
            })
        }),
        b == 0 ==> op_rule(Value::Num(a), Op::Div, pos, Value::Num(b)) == Err::<OpOutcome, RuntimeError>(
            RuntimeError::DivByZero { pos },
        ),
        b == 0 ==> op_rule(Value::Num(a), Op::Mod, pos, Value::Num(b)) == Err::<OpOutcome, RuntimeError>(
            RuntimeError::DivByZero { pos },
        ),
{
    if b != 0 {
        let qv = a / b;
        let rv = a % b;
        assert(a == qv * b + rv && rv < b) by (nonlinear_arith)
            requires
                b != 0,
                qv == a / b,
                rv == a % b,
        ;
    }
}

/// `and` and `or`: on two booleans they are the boolean connectives; on
/// three-valued truth values (0 false, 1 true, 2 unknown) `false and x` is
/// false and `true or x` is true whatever `x` is, two known values combine
/// as booleans, and otherwise the result is unknown; both are symmetric.
pub proof fn law_logic_operators(a: bool, b: bool, x: u8, y: u8, pos: usize)
    requires
        x <= 2,
        y <= 2,
    ensures
        op_rule(Value::Bool(a), Op::And, pos, Value::Bool(b)) == Ok::<OpOutcome, RuntimeError>(OpOutcome::Done(Value::Bool(a && b))),
        op_rule(Value::Bool(a), Op::Or, pos, Value::Bool(b)) == Ok::<OpOutcome, RuntimeError>(OpOutcome::Done(Value::Bool(a || b))),
        op_rule(Value::TBool(0), Op::And, pos, Value::TBool(y)) == Ok::<OpOutcome, RuntimeError>(OpOutcome::Done(Value::TBool(0))),
        op_rule(Value::TBool(x), Op::And, pos, Value::TBool(0)) == Ok::<OpOutcome, RuntimeError>(OpOutcome::Done(Value::TBool(0))),
        op_rule(Value::TBool(1), Op::Or, pos, Value::TBool(y)) == Ok::<OpOutcome, RuntimeError>(OpOutcome::Done(Value::TBool(1))),
        op_rule(Value::TBool(x), Op::Or, pos, Value::TBool(1)) == Ok::<OpOutcome, RuntimeError>(OpOutcome::Done(Value::TBool(1))),
        op_rule(Value::TBool(1), Op::And, pos, Value::TBool(1)) == Ok::<OpOutcome, RuntimeError>(OpOutcome::Done(Value::TBool(1))),
        op_rule(Value::TBool(0), Op::Or, pos, Value::TBool(0)) == Ok::<OpOutcome, RuntimeError>(OpOutcome::Done(Value::TBool(0))),
        (x == 2 && y != 0) ==> op_rule(Value::TBool(x), Op::And, pos, Value::TBool(y)) == Ok::<OpOutcome, RuntimeError>(
            OpOutcome::Done(Value::TBool(2)),
        ),
        (x == 2 && y != 1) ==> op_rule(Value::TBool(x), Op::Or, pos, Value::TBool(y)) == Ok::<OpOutcome, RuntimeError>(
            OpOutcome::Done(Value::TBool(2)),
        ),
        op_rule(Value::TBool(x), Op::And, pos, Value::TBool(y)) == op_rule(Value::TBool(y), Op::And, pos, Value::TBool(x)),
        op_rule(Value::TBool(x), Op::Or, pos, Value::TBool(y)) == op_rule(Value::TBool(y), Op::Or, pos, Value::TBool(x)),
        op_rule(Value::Bool(a), Op::And, pos, Value::TBool(y)) == op_rule(Value::TBool(y), Op::And, pos, Value::Bool(a)),
        op_rule(Value::Bool(a), Op::Or, pos, Value::TBool(y)) == op_rule(Value::TBool(y), Op::Or, pos, Value::Bool(a)),
        op_rule(Value::Bool(false), Op::And, pos, Value::TBool(y)) == Ok::<OpOutcome, RuntimeError>(OpOutcome::Done(Value::TBool(0))),
        op_rule(Value::Bool(true), Op::Or, pos, Value::TBool(y)) == Ok::<OpOutcome, RuntimeError>(OpOutcome::Done(Value::TBool(1))),
        op_rule(Value::Bool(true), Op::And, pos, Value::TBool(y)) == Ok::<OpOutcome, RuntimeError>(OpOutcome::Done(Value::TBool(y))),
        op_rule(Value::Bool(false), Op::Or, pos, Value::TBool(y)) == Ok::<OpOutcome, RuntimeError>(OpOutcome::Done(Value::TBool(y))),
{
}

/// `false and x` is false and `true or x` is true even where `x` is not
/// known; otherwise an unknown operand makes the result unknown, and
/// `0 * x` is 0.
pub proof fn law_unknown_operands(t: Type, u: Type, op: Op, v: Value, pos: usize)
    requires
        !(v is Unknown),
    ensures
        op_rule(Value::Bool(false), Op::And, pos, Value::Unknown(t)) == Ok::<OpOutcome, RuntimeError>(OpOutcome::Done(Value::Bool(false))),
        op_rule(Value::Unknown(t), Op::And, pos, Value::Bool(false)) == Ok::<OpOutcome, RuntimeError>(OpOutcome::Done(Value::Bool(false))),
        op_rule(Value::Bool(true), Op::Or, pos, Value::Unknown(t)) == Ok::<OpOutcome, RuntimeError>(OpOutcome::Done(Value::Bool(true))),
        op_rule(Value::Unknown(t), Op::Or, pos, Value::Bool(true)) == Ok::<OpOutcome, RuntimeError>(OpOutcome::Done(Value::Bool(true))),
        op_rule(Value::Num(0), Op::Mul, pos, Value::Unknown(t)) == Ok::<OpOutcome, RuntimeError>(OpOutcome::Done(Value::Num(0))),
        op_rule(Value::Unknown(t), Op::Mul, pos, Value::Num(0)) == Ok::<OpOutcome, RuntimeError>(OpOutcome::Done(Value::Num(0))),
        op_rule(Value::Unknown(t), Op::Plus, pos, Value::Unknown(u)) == Ok::<OpOutcome, RuntimeError>(OpOutcome::Done(Value::Unknown(t))),
        (op is Plus || op is Minus || op is Div || op is Mod || op is EqEq || op is Lt || op is Gt || op is LtEq
            || op is GtEq) ==> op_rule(Value::Unknown(t), op, pos, v) == Ok::<
            OpOutcome,
            RuntimeError,
        >(OpOutcome::Done(Value::Unknown(t))) && op_rule(v, op, pos, Value::Unknown(t)) == Ok::<OpOutcome, RuntimeError>(
            OpOutcome::Done(Value::Unknown(t)),
        ),
{
}

/// `==` compares strings by their characters, and characters and booleans
/// by value; it is symmetric on these, and `x == x` holds.
pub proof fn law_equality(s1: String, s2: String, c1: char, c2: char, b1: bool, b2: bool, pos: usize)
    ensures
        op_rule(Value::Str(s1), Op::EqEq, pos, Value::Str(s2)) == Ok::<OpOutcome, RuntimeError>(OpOutcome::Done(Value::Bool(s1@ == s2@))),
        op_rule(Value::Char(c1), Op::EqEq, pos, Value::Char(c2)) == Ok::<OpOutcome, RuntimeError>(OpOutcome::Done(Value::Bool(c1 == c2))),
        op_rule(Value::Bool(b1), Op::EqEq, pos, Value::Bool(b2)) == Ok::<OpOutcome, RuntimeError>(OpOutcome::Done(Value::Bool(b1 == b2))),
        op_rule(Value::Str(s1), Op::EqEq, pos, Value::Str(s2)) == op_rule(Value::Str(s2), Op::EqEq, pos, Value::Str(s1)),
        op_rule(Value::Str(s1), Op::EqEq, pos, Value::Str(s1)) == Ok::<OpOutcome, RuntimeError>(OpOutcome::Done(Value::Bool(true))),
        op_rule(Value::Str(s1), Op::EqEq, pos, Value::Num(0)) is Err,
{
}

fn is_unknown(v: &Value) -> (b: bool)
    ensures
        b == v is Unknown,
{
    match v {
        Value::Unknown(_) => true,
        _ => false,
    }
}

fn is_bool(v: &Value, b: bool) -> (r: bool)
    ensures
        r == (*v == Value::Bool(b)),
{
    match v {
        Value::Bool(x) => *x == b,
        _ => false,
    }
}

fn is_tbool(v: &Value, t: u8) -> (r: bool)
    ensures
        r == (*v == Value::TBool(t)),
{
    match v {
        Value::TBool(x) => *x == t,
        _ => false,
    }
}

fn is_num(v: &Value, n: u128) -> (r: bool)
    ensures
        r == (*v == Value::Num(n)),
{
    match v {
        Value::Num(x) => *x == n,
        _ => false,
    }
}

fn numeric(v: &Value) -> (r: bool)
    ensures
        r == is_numeric_value(*v),
{
    match v {
        Value::Num(_) | Value::Float(_) => true,
        _ => false,
    }
}

fn arith(left: Value, op: Op, pos: usize, right: Value) -> (r: Result<OpOutcome, RuntimeError>)
    requires
        op == Op::Plus || op == Op::Minus || op == Op::Mul || op == Op::Div || op == Op::Mod,
    ensures
        r == arith_rule(left, op, pos, right),
{
    match (&left, &right) {
        (Value::Num(a), Value::Num(b)) => {
            let (a, b) = (*a, *b);
            match op {
                Op::Plus => Ok(OpOutcome::Done(Value::Num(a.saturating_add(b)))),
                Op::Minus => Ok(OpOutcome::Done(Value::Num(a.saturating_sub(b)))),
                Op::Mul => Ok(
                    OpOutcome::Done(
                        Value::Num(
                            match a.checked_mul(b) {
                                Some(m) => m,
                                None => u128::MAX,
                            },
                        ),
                    ),
                ),
                Op::Div => if b == 0 {
                    Err(RuntimeError::DivByZero { pos })
                } else {
                    Ok(OpOutcome::Done(Value::Num(a / b)))
                },
                _ => if b == 0 {
                    Err(RuntimeError::DivByZero { pos })
                } else {
                    Ok(OpOutcome::Done(Value::Num(a % b)))
                },
            }
        },
        _ => if numeric(&left) && numeric(&right) {
            let divides = match op {
                Op::Div | Op::Mod => true,
                _ => false,
            };
            let zero = match &right {
                Value::Num(n) => *n == 0,
                Value::Float(b) => *b == 0 || *b == 0x8000_0000_0000_0000,
                _ => false,
            };
            if divides && zero {
                return Err(RuntimeError::DivByZero { pos });
            }
            Ok(OpOutcome::FloatArith { op, left, right })
        } else {
            Err(RuntimeError::BadOperands { pos, op, left, right })
        },
    }
}

fn equal(left: Value, pos: usize, right: Value) -> (r: Result<OpOutcome, RuntimeError>)
    ensures
        r == eq_rule(left, pos, right),
{
    match (&left, &right) {
        (Value::Num(a), Value::Num(b)) => Ok(OpOutcome::Done(Value::Bool(*a == *b))),
        (Value::Float(_), Value::Float(_)) | (Value::Num(_), Value::Float(_)) | (Value::Float(_), Value::Num(_)) => Ok(
            OpOutcome::FloatArith { op: Op::EqEq, left, right },
        ),
        (Value::Str(a), Value::Str(b)) => Ok(OpOutcome::Done(Value::Bool(str_eq_string(a.as_str(), b)))),
        (Value::Char(a), Value::Char(b)) => Ok(OpOutcome::Done(Value::Bool(*a == *b))),
        (Value::Bool(a), Value::Bool(b)) => Ok(OpOutcome::Done(Value::Bool(*a == *b))),
        (Value::TBool(a), Value::TBool(b)) => if *a == 2 || *b == 2 {
            Ok(OpOutcome::Done(Value::TBool(2)))
        } else {
            Ok(OpOutcome::Done(Value::Bool(*a == *b)))
        },
        (Value::TBool(a), Value::Bool(b)) => if *a == 2 {
            Ok(OpOutcome::Done(Value::TBool(2)))
        } else {
            Ok(OpOutcome::Done(Value::Bool((*a == 1) == *b)))
        },
        (Value::Bool(a), Value::TBool(b)) => if *b == 2 {
            Ok(OpOutcome::Done(Value::TBool(2)))
        } else {
            Ok(OpOutcome::Done(Value::Bool(*a == (*b == 1))))
        },
        _ => if is_tbool(&left, 2) || is_tbool(&right, 2) {
            Ok(OpOutcome::Done(Value::TBool(2)))
        } else {
            Err(RuntimeError::BadOperands { pos, op: Op::EqEq, left, right })
        },
    }
}

fn compare(left: Value, op: Op, pos: usize, right: Value) -> (r: Result<OpOutcome, RuntimeError>)
    requires
        op == Op::Lt || op == Op::Gt || op == Op::LtEq || op == Op::GtEq,
    ensures
        r == cmp_rule(left, op, pos, right),
{
    match (&left, &right) {
        (Value::Num(a), Value::Num(b)) => {
            let (a, b) = (*a, *b);
            let v = match op {
                Op::Lt => a < b,
                Op::Gt => a > b,
                Op::LtEq => a <= b,
                _ => a >= b,
            };
            Ok(OpOutcome::Done(Value::Bool(v)))
        },
        _ => Err(RuntimeError::BadOperands { pos, op, left, right }),
    }
}

fn logic(left: Value, op: Op, pos: usize, right: Value) -> (r: Result<OpOutcome, RuntimeError>)
    requires
        op == Op::And || op == Op::Or,
    ensures
        r == logic_rule(left, op, pos, right),
{
    let is_and = match op {
        Op::And => true,
        _ => false,
    };
    match (&left, &right) {
        (Value::Bool(a), Value::Bool(b)) => Ok(
            OpOutcome::Done(Value::Bool(if is_and { *a && *b } else { *a || *b })),
        ),
        (Value::TBool(a), Value::TBool(b)) => {
            let (a, b) = (*a, *b);
            let t: u8 = if is_and {
                if a == 0 || b == 0 { 0 } else if a == 1 && b == 1 { 1 } else { 2 }
            } else {
                if a == 1 || b == 1 { 1 } else if a == 0 && b == 0 { 0 } else { 2 }
            };
            Ok(OpOutcome::Done(Value::TBool(t)))
        },
        (Value::Bool(a), Value::TBool(b)) => {
            let t: u8 = if *a == is_and { *b } else if is_and { 0 } else { 1 };
            Ok(OpOutcome::Done(Value::TBool(t)))
        },
        (Value::TBool(a), Value::Bool(b)) => {
            let t: u8 = if *b == is_and { *a } else if is_and { 0 } else { 1 };
            Ok(OpOutcome::Done(Value::TBool(t)))
        },
        _ => Err(RuntimeError::BadOperands { pos, op, left, right }),
    }
}

/// Apply a binary operator to two values (see [`op_rule`]).
pub fn apply_op(left: Value, op: Op, pos: usize, right: Value) -> (r: Result<OpOutcome, RuntimeError>)
    ensures
        r == op_rule(left, op, pos, right),
{
    let is_and = match op {
        Op::And => true,
        _ => false,
    };
    let is_or = match op {
        Op::Or => true,
        _ => false,
    };
    let is_mul = match op {
        Op::Mul => true,
        _ => false,
    };
    if is_and && ((is_bool(&left, false) && is_unknown(&right)) || (is_unknown(&left) && is_bool(&right, false))) {
        return Ok(OpOutcome::Done(Value::Bool(false)));
    }
    if is_or && ((is_bool(&left, true) && is_unknown(&right)) || (is_unknown(&left) && is_bool(&right, true))) {
        return Ok(OpOutcome::Done(Value::Bool(true)));
    }
    if is_and && (is_tbool(&left, 0) || is_tbool(&right, 0)) {
        return Ok(OpOutcome::Done(Value::TBool(0)));
    }
    if is_or && (is_tbool(&left, 1) || is_tbool(&right, 1)) {
        return Ok(OpOutcome::Done(Value::TBool(1)));
    }
    if is_mul && ((is_unknown(&left) && is_num(&right, 0)) || (is_num(&left, 0) && is_unknown(&right))) {
        return Ok(OpOutcome::Done(Value::Num(0)));
    }
    if is_unknown(&left) {
        return Ok(OpOutcome::Done(left));
    }
    if is_unknown(&right) {
        return Ok(OpOutcome::Done(right));
    }
    match op {
        Op::Plus | Op::Minus | Op::Mul | Op::Div | Op::Mod => arith(left, op, pos, right),
        Op::EqEq => equal(left, pos, right),
        Op::Lt | Op::Gt | Op::LtEq | Op::GtEq => compare(left, op, pos, right),
        Op::And | Op::Or => logic(left, op, pos, right),
    }
}

} // verus!
