//! Running the analysed program: the same scopes and output as the
//! tree-walking interpreter, driven by resolved statements, with loops.
//! Each loop may run at most `fuel` iterations before the run stops.
use vstd::prelude::*;
use crate::frontend::ast::{Op, Type};
use crate::frontend::semantic_types::{
    SemanticCallArg, SemanticExpr, SemanticExprKind, SemanticLValue, SemanticStmt, SemanticValue,
    SemanticWhenArm, SemanticWhenPattern,
};
use crate::interpreter::{
    declare_spec, get_spec, lemma_find_from, set_spec, set_typed_spec, unary, unary_spec, Frames, RunTime, State, Stop,
};
use crate::operators::{apply_op, op_rule, OpOutcome, RuntimeError, Value, VarEntry};
use crate::runtime::{decl_of_sem, semantic_type_to_ast};
use crate::frontend::semantic::str_eq_string;

verus! {

/// What running a statement leaves: the state, and whether it stopped.
pub type Outcome = (State, Result<(), Stop>);

/// The run-time value of an analysed literal.
pub open spec fn sem_value(sv: SemanticValue) -> Value {
    match sv {
        SemanticValue::Num(n) => Value::Num(n),
        SemanticValue::Float(b) => Value::Float(b),
        SemanticValue::Str(s) => Value::Str(s),
        SemanticValue::Bool(b) => Value::Bool(b),
        SemanticValue::Char(c) => Value::Char(c),
        SemanticValue::EnumVariant { enum_name, variant_name, .. } => Value::EnumVariant(enum_name, variant_name),
        SemanticValue::Unknown => Value::Unknown(Type::T32),
    }
}

/// A runtime error as a stop.
pub open spec fn err_stop<T>(r: Result<T, RuntimeError>) -> Result<T, Stop> {
    match r {
        Ok(v) => Ok(v),
        Err(x) => Err(Stop::Error(x)),
    }
}

/// Evaluating an analysed expression in the given scopes. Field reads,
/// handles and calls other than `is_known` are not run here.
pub open spec fn sem_eval(fs: Frames, e: SemanticExpr) -> Result<Value, Stop>
    decreases e,
{
    match e.kind {
        SemanticExprKind::Value(sv) => Ok(sem_value(sv)),
        SemanticExprKind::VarRef { name, .. } => err_stop(get_spec(fs, name, 0)),
        SemanticExprKind::Unary { op, expr, pos } => match sem_eval(fs, *expr) {
            Ok(v) => err_stop(unary_spec(op, v, pos)),
            Err(s) => Err(s),
        },
        SemanticExprKind::Binary { lhs, op, pos, rhs } => match sem_eval(fs, *lhs) {
            Ok(a) => if decided_by_left(a, op) {
                Ok(a)
            } else {
                match sem_eval(fs, *rhs) {
                    Ok(b) => match op_rule(a, op, pos, b) {
                        Ok(OpOutcome::Done(v)) => Ok(v),
                        Ok(OpOutcome::FloatArith { op, left, right }) => Err(Stop::Float { op, left, right, pos }),
                        Err(x) => Err(Stop::Error(x)),
                    },
                    Err(s) => Err(s),
                }
            },
            Err(s) => Err(s),
        },
        SemanticExprKind::Call { callee, args, .. } => if callee@ == "is_known"@ && args@.len() > 0
            && args@[0] is Expr {
            match sem_eval(fs, args@[0]->Expr_0) {
                Ok(v) => Ok(Value::Bool(!(v is Unknown || v == Value::TBool(2)))),
                Err(s) => Err(s),
            }
        } else {
            Err(Stop::Unsupported)
        },
        SemanticExprKind::Range { .. } => Ok(Value::Num(0)),
        SemanticExprKind::Cast { expr, .. } => sem_eval(fs, *expr),
        _ => Err(Stop::Unsupported),
    }
}

/// Whether `and`/`or` is decided by its left operand alone (`false and`,
/// `true or`, with the known `TBool`s), so that the right one is not run.
pub open spec fn decided_by_left(l: Value, op: Op) -> bool {
    (op == Op::And && (l == Value::Bool(false) || l == Value::TBool(0))) || (op == Op::Or && (l
        == Value::Bool(true) || l == Value::TBool(1)))
}

/// A loop condition holds when it is `true` or the known-true `TBool`.
pub open spec fn truthy(v: Value) -> bool {
    v == Value::Bool(true) || v == Value::TBool(1)
}

/// The outcome of a change to the scopes: the new scopes, or the error
/// with the state left as it was.
pub open spec fn step(st: State, r: Result<Frames, RuntimeError>) -> Outcome {
    match r {
        Ok(fs) => ((fs, st.1, st.2), Ok(())),
        Err(x) => (st, Err(Stop::Error(x))),
    }
}

/// The state with its innermost scope closed.
pub open spec fn close_scope(st: State) -> State {
    (st.0.drop_last(), st.1, st.2)
}

/// The declared type a variable gets from an optional analysed type.
pub open spec fn opt_decl(t: Option<crate::frontend::semantic_types::SemanticType>) -> Option<Type> {
    match t {
        Some(x) => Some(decl_of_sem(x)),
        None => None,
    }
}

/// Whether `v` equals the literal `sv`; `None` where both are floats, whose
/// comparison is not made here.
pub open spec fn literal_matches(v: Value, sv: SemanticValue) -> Option<bool> {
    match (v, sv) {
        (Value::Float(_), SemanticValue::Float(_)) => None,
        (Value::Num(a), SemanticValue::Num(b)) => Some(a == b),
        (Value::Str(a), SemanticValue::Str(b)) => Some(a@ == b@),
        (Value::Bool(a), SemanticValue::Bool(b)) => Some(a == b),
        (Value::Char(a), SemanticValue::Char(b)) => Some(a == b),
        (Value::EnumVariant(e, n), SemanticValue::EnumVariant { enum_name, variant_name, .. }) => Some(
            e@ == enum_name@ && n@ == variant_name@,
        ),
        (Value::Unknown(t), SemanticValue::Unknown) => Some(t == Type::T32),
        _ => Some(false),
    }
}

/// Whether `v` falls under a `when` pattern; `None` where deciding it
/// compares floats.
pub open spec fn pattern_matches(v: Value, p: SemanticWhenPattern) -> Option<bool> {
    match p {
        SemanticWhenPattern::Literal(sv) => literal_matches(v, sv),
        SemanticWhenPattern::Range(lo, hi, inclusive) => match (v, lo, hi) {
            (Value::Num(x), SemanticValue::Num(l), SemanticValue::Num(h)) => Some(
                l <= x && (if inclusive { x <= h } else { x < h }),
            ),
            _ => Some(false),
        },
        SemanticWhenPattern::EnumVariant { enum_name, variant_name, .. } => match v {
            Value::EnumVariant(e, n) => Some(e@ == enum_name@ && n@ == variant_name@),
            _ => Some(false),
        },
        SemanticWhenPattern::Catchall => Some(true),
    }
}

/// The first arm from the `i`-th on whose pattern `v` falls under
/// (`Some(None)` if none does); `None` if a float comparison comes first.
pub open spec fn first_arm(v: Value, arms: Seq<SemanticWhenArm>, i: int) -> Option<Option<int>>
    decreases arms.len() - i,
{
    if i < 0 || i >= arms.len() {
        Some(None)
    } else {
        match pattern_matches(v, arms[i].pattern) {
            None => None,
            Some(true) => Some(Some(i)),
            Some(false) => first_arm(v, arms, i + 1),
        }
    }
}

/// Running one analysed statement with `fuel` iterations allowed per loop
/// level. Every block, loop body and `when` arm runs in a scope of its own,
/// closed again whatever happens inside. Function definitions and field
/// assignments are not run here; an enum declaration changes nothing this
/// state holds.
pub open spec fn sem_exec(st: State, s: SemanticStmt, fuel: nat) -> Outcome
    decreases fuel, s, 1nat,
{
    let (fs, out, hm) = st;
    match s {
        SemanticStmt::Print { expr, .. } => match sem_eval(fs, expr) {
            Ok(v) => ((fs, out.push((v, true)), hm), Ok(())),
            Err(x) => (st, Err(x)),
        },
        SemanticStmt::PrintInline { expr, .. } => match sem_eval(fs, expr) {
            Ok(v) => ((fs, out.push((v, false)), hm), Ok(())),
            Err(x) => (st, Err(x)),
        },
        SemanticStmt::Decl { name, ty, .. } => step(st, declare_spec(fs, name, opt_decl(ty), 0)),
        SemanticStmt::TypedAssign { name, ty, expr, .. } => match sem_eval(fs, expr) {
            Err(x) => (st, Err(x)),
            Ok(v) => {
                let t = decl_of_sem(ty);
                let v2 = if t == Type::Bool && v is Unknown { Value::TBool(2) } else { v };
                step(st, set_typed_spec(fs, name, t, v2, 0))
            },
        },
        SemanticStmt::Assign { target, expr, .. } => match sem_eval(fs, expr) {
            Err(x) => (st, Err(x)),
            Ok(v) => match target {
                SemanticLValue::Binding { name, .. } => step(st, set_spec(fs, name, v, 0)),
                SemanticLValue::DotAccess { .. } => (st, Err(Stop::Unsupported)),
            },
        },
        SemanticStmt::CompoundAssign { name, op, operand, .. } => match get_spec(fs, name, 0) {
            Err(x) => (st, Err(Stop::Error(x))),
            Ok(cur) => match sem_eval(fs, operand) {
                Err(x) => (st, Err(x)),
                Ok(rhs) => match op_rule(cur, op, 0, rhs) {
                    Ok(OpOutcome::Done(v)) => step(st, set_spec(fs, name, v, 0)),
                    Ok(OpOutcome::FloatArith { op, left, right }) => (
                        st,
                        Err(Stop::Float { op, left, right, pos: 0 }),
                    ),
                    Err(x) => (st, Err(Stop::Error(x))),
                },
            },
        },
        SemanticStmt::Return { expr, .. } => match expr {
            Some(e) => match sem_eval(fs, e) {
                Ok(v) => (st, Err(Stop::Error(RuntimeError::EarlyReturn(v)))),
                Err(x) => (st, Err(x)),
            },
            None => (st, Err(Stop::Error(RuntimeError::EarlyReturn(Value::Num(0))))),
        },
        SemanticStmt::ExprStmt { expr, .. } => match sem_eval(fs, expr) {
            Ok(_) => (st, Ok(())),
            Err(x) => (st, Err(x)),
        },
        SemanticStmt::Block { stmts, .. } => {
            let (st2, r) = sem_seq((fs.push(Seq::empty()), out, hm), stmts@, 0, fuel);
            (close_scope(st2), r)
        },
        SemanticStmt::While { cond, body, .. } => match sem_eval(fs, cond) {
            Err(x) => (st, Err(x)),
            Ok(cv) => if !truthy(cv) {
                (st, Ok(()))
            } else if fuel == 0 {
                (st, Err(Stop::OutOfFuel))
            } else {
                let (st2, r) = sem_seq((fs.push(Seq::empty()), out, hm), body@, 0, fuel);
                let st3 = close_scope(st2);
                match r {
                    Ok(()) => sem_exec(st3, s, (fuel - 1) as nat),
                    Err(Stop::Error(RuntimeError::ContinueSignal)) => sem_exec(st3, s, (fuel - 1) as nat),
                    Err(Stop::Error(RuntimeError::BreakSignal)) => (st3, Ok(())),
                    Err(x) => (st3, Err(x)),
                }
            },
        },
        SemanticStmt::Loop { body, .. } => if fuel == 0 {
            (st, Err(Stop::OutOfFuel))
        } else {
            let (st2, r) = sem_seq((fs.push(Seq::empty()), out, hm), body@, 0, fuel);
            let st3 = close_scope(st2);
            match r {
                Ok(()) => sem_exec(st3, s, (fuel - 1) as nat),
                Err(Stop::Error(RuntimeError::ContinueSignal)) => sem_exec(st3, s, (fuel - 1) as nat),
                Err(Stop::Error(RuntimeError::BreakSignal)) => (st3, Ok(())),
                Err(x) => (st3, Err(x)),
            }
        },
        SemanticStmt::For { start, end, inclusive, .. } => match sem_eval(fs, start) {
            Err(x) => (st, Err(x)),
            Ok(Value::Num(a)) => match sem_eval(fs, end) {
                Err(x) => (st, Err(x)),
                Ok(Value::Num(b)) => sem_for(st, s, a as int, if inclusive { b + 1 } else { b as int }, fuel),
                Ok(_) => (st, Err(Stop::Error(RuntimeError::BadAssignTarget { pos: 0 }))),
            },
            Ok(_) => (st, Err(Stop::Error(RuntimeError::BadAssignTarget { pos: 0 }))),
        },
        SemanticStmt::Break { .. } => (st, Err(Stop::Error(RuntimeError::BreakSignal))),
        SemanticStmt::Continue { .. } => (st, Err(Stop::Error(RuntimeError::ContinueSignal))),
        SemanticStmt::When { expr, arms, .. } => match sem_eval(fs, expr) {
            Err(x) => (st, Err(x)),
            Ok(v) => match first_arm(v, arms@, 0) {
                None => (st, Err(Stop::Unsupported)),
                Some(None) => (st, Ok(())),
                Some(Some(k)) => if 0 <= k < arms@.len() {
                    let (st2, r) = sem_seq((fs.push(Seq::empty()), out, hm), arms@[k].body@, 0, fuel);
                    (close_scope(st2), r)
                } else {
                    (st, Ok(()))
                },
            },
        },
        SemanticStmt::EnumDef { .. } => (st, Ok(())),
        _ => (st, Err(Stop::Unsupported)),
    }
}

/// The iterations of a `for` loop from `i` up to (not including) `hi`:
/// each runs the body in a new scope holding the loop variable.
pub open spec fn sem_for(st: State, s: SemanticStmt, i: int, hi: int, fuel: nat) -> Outcome
    decreases fuel, s, 0nat,
{
    match s {
        SemanticStmt::For { var, body, .. } => if i >= hi {
            (st, Ok(()))
        } else if fuel == 0 {
            (st, Err(Stop::OutOfFuel))
        } else {
            let frame = seq![(var, VarEntry { ty: Some(Type::T128), val: Some(Value::Num(i as u128)) })];
            let (st2, r) = sem_seq((st.0.push(frame), st.1, st.2), body@, 0, fuel);
            let st3 = close_scope(st2);
            match r {
                Ok(()) => sem_for(st3, s, i + 1, hi, (fuel - 1) as nat),
                Err(Stop::Error(RuntimeError::ContinueSignal)) => sem_for(st3, s, i + 1, hi, (fuel - 1) as nat),
                Err(Stop::Error(RuntimeError::BreakSignal)) => (st3, Ok(())),
                Err(x) => (st3, Err(x)),
            }
        },
        _ => (st, Ok(())),
    }
}

/// Running statements from the `i`-th on; the first stop ends the run.
pub open spec fn sem_seq(st: State, ss: Seq<SemanticStmt>, i: int, fuel: nat) -> Outcome
    decreases fuel, ss, ss.len() - i,
{
    if i < 0 || i >= ss.len() {
        (st, Ok(()))
    } else {
        let (st2, r) = sem_exec(st, ss[i], fuel);
        match r {
            Ok(()) => sem_seq(st2, ss, i + 1, fuel),
            Err(x) => (st2, Err(x)),
        }
    }
}

// ── Laws ─────────────────────────────────────────────────────────────────────

/// Whether a run stopped because a loop used up its iterations.
pub open spec fn ran_out(o: Outcome) -> bool {
    o.1 matches Err(Stop::OutOfFuel)
}

/// Allowing more loop iterations never changes a run that did not run out:
/// the bound only decides where a run that would go on is cut off.
pub proof fn law_more_fuel_same_run(st: State, s: SemanticStmt, f: nat, g: nat)
    requires
        f <= g,
        !ran_out(sem_exec(st, s, f)),
    ensures
        sem_exec(st, s, g) == sem_exec(st, s, f),
    decreases f, s, 1nat,
{
    let (fs, out, hm) = st;
    match s {
        SemanticStmt::Block { stmts, .. } => {
            lemma_seq_more_fuel((fs.push(Seq::empty()), out, hm), stmts@, 0, f, g);
        },
        SemanticStmt::While { cond, body, .. } => {
            if let Ok(cv) = sem_eval(fs, cond) {
                if truthy(cv) && f > 0 {
                    let inner = (fs.push(Seq::empty()), out, hm);
                    lemma_seq_more_fuel(inner, body@, 0, f, g);
                    let (st2, r) = sem_seq(inner, body@, 0, f);
                    if r is Ok || r == Err::<(), Stop>(Stop::Error(RuntimeError::ContinueSignal)) {
                        law_more_fuel_same_run(close_scope(st2), s, (f - 1) as nat, (g - 1) as nat);
                    }
                }
            }
        },
        SemanticStmt::Loop { body, .. } => {
            if f > 0 {
                let inner = (fs.push(Seq::empty()), out, hm);
                lemma_seq_more_fuel(inner, body@, 0, f, g);
                let (st2, r) = sem_seq(inner, body@, 0, f);
                if r is Ok || r == Err::<(), Stop>(Stop::Error(RuntimeError::ContinueSignal)) {
                    law_more_fuel_same_run(close_scope(st2), s, (f - 1) as nat, (g - 1) as nat);
                }
            }
        },
        SemanticStmt::For { start, end, inclusive, .. } => {
            if let Ok(Value::Num(a)) = sem_eval(fs, start) {
                if let Ok(Value::Num(b)) = sem_eval(fs, end) {
                    lemma_for_more_fuel(st, s, a as int, if inclusive { b + 1 } else { b as int }, f, g);
                }
            }
        },
        SemanticStmt::When { expr, arms, .. } => {
            if let Ok(v) = sem_eval(fs, expr) {
                if let Some(Some(k)) = first_arm(v, arms@, 0) {
                    if 0 <= k < arms@.len() {
                        lemma_seq_more_fuel((fs.push(Seq::empty()), out, hm), arms@[k].body@, 0, f, g);
                    }
                }
            }
        },
        _ => {},
    }
}

proof fn lemma_seq_more_fuel(st: State, ss: Seq<SemanticStmt>, i: int, f: nat, g: nat)
    requires
        f <= g,
        !ran_out(sem_seq(st, ss, i, f)),
    ensures
        sem_seq(st, ss, i, g) == sem_seq(st, ss, i, f),
    decreases f, ss, ss.len() - i,
{
    if 0 <= i < ss.len() {
        law_more_fuel_same_run(st, ss[i], f, g);
        let (st2, r) = sem_exec(st, ss[i], f);
        if r is Ok {
            lemma_seq_more_fuel(st2, ss, i + 1, f, g);
        }
    }
}

proof fn lemma_for_more_fuel(st: State, s: SemanticStmt, i: int, hi: int, f: nat, g: nat)
    requires
        f <= g,
        !ran_out(sem_for(st, s, i, hi, f)),
    ensures
        sem_for(st, s, i, hi, g) == sem_for(st, s, i, hi, f),
    decreases f, s, 0nat,
{
    if let SemanticStmt::For { var, body, .. } = s {
        if i < hi && f > 0 {
            let frame = seq![(var, VarEntry { ty: Some(Type::T128), val: Some(Value::Num(i as u128)) })];
            let inner = (st.0.push(frame), st.1, st.2);
            lemma_seq_more_fuel(inner, body@, 0, f, g);
            let (st2, r) = sem_seq(inner, body@, 0, f);
            if r is Ok || r == Err::<(), Stop>(Stop::Error(RuntimeError::ContinueSignal)) {
                lemma_for_more_fuel(close_scope(st2), s, i + 1, hi, (f - 1) as nat, (g - 1) as nat);
            }
        }
    }
}

fn value_of(sv: &SemanticValue) -> (r: Value)
    ensures
        r == sem_value(*sv),
{
    match sv {
        SemanticValue::Num(n) => Value::Num(*n),
        SemanticValue::Float(b) => Value::Float(*b),
        SemanticValue::Str(s) => Value::Str(s.clone()),
        SemanticValue::Bool(b) => Value::Bool(*b),
        SemanticValue::Char(c) => Value::Char(*c),
        SemanticValue::EnumVariant { enum_name, variant_name, .. } => Value::EnumVariant(
            enum_name.clone(),
            variant_name.clone(),
        ),
        SemanticValue::Unknown => Value::Unknown(Type::T32),
    }
}

fn is_truthy(v: &Value) -> (b: bool)
    ensures
        b == truthy(*v),
{
    match v {
        Value::Bool(b) => *b,
        Value::TBool(t) => *t == 1,
        _ => false,
    }
}

fn literal_match(v: &Value, sv: &SemanticValue) -> (r: Option<bool>)
    ensures
        r == literal_matches(*v, *sv),
{
    match (v, sv) {
        (Value::Float(_), SemanticValue::Float(_)) => None,
        (Value::Num(a), SemanticValue::Num(b)) => Some(*a == *b),
        (Value::Str(a), SemanticValue::Str(b)) => Some(str_eq_string(a.as_str(), b)),
        (Value::Bool(a), SemanticValue::Bool(b)) => Some(*a == *b),
        (Value::Char(a), SemanticValue::Char(b)) => Some(*a == *b),
        (Value::EnumVariant(e, n), SemanticValue::EnumVariant { enum_name, variant_name, .. }) => Some(
            str_eq_string(e.as_str(), enum_name) && str_eq_string(n.as_str(), variant_name),
        ),
        (Value::Unknown(t), SemanticValue::Unknown) => Some(
            match t {
                Type::T32 => true,
                _ => false,
            },
        ),
        _ => Some(false),
    }
}

fn pattern_match(v: &Value, p: &SemanticWhenPattern) -> (r: Option<bool>)
    ensures
        r == pattern_matches(*v, *p),
{
    match p {
        SemanticWhenPattern::Literal(sv) => literal_match(v, sv),
        SemanticWhenPattern::Range(lo, hi, inclusive) => match (v, lo, hi) {
            (Value::Num(x), SemanticValue::Num(l), SemanticValue::Num(h)) => Some(
                *l <= *x && (if *inclusive {
                    *x <= *h
                } else {
                    *x < *h
                }),
            ),
            _ => Some(false),
        },
        SemanticWhenPattern::EnumVariant { enum_name, variant_name, .. } => match v {
            Value::EnumVariant(e, n) => Some(
                str_eq_string(e.as_str(), enum_name) && str_eq_string(n.as_str(), variant_name),
            ),
            _ => Some(false),
        },
        SemanticWhenPattern::Catchall => Some(true),
    }
}

fn find_arm(v: &Value, arms: &Vec<SemanticWhenArm>) -> (r: Option<Option<usize>>)
    ensures
        match r {
            None => first_arm(*v, arms@, 0) is None,
            Some(None) => first_arm(*v, arms@, 0) == Some(None::<int>),
            Some(Some(k)) => first_arm(*v, arms@, 0) == Some(Some(k as int)) && k < arms@.len(),
        },
{
    let mut i: usize = 0;
    while i < arms.len()
        invariant
            i <= arms@.len(),
            first_arm(*v, arms@, 0) == first_arm(*v, arms@, i as int),
        decreases arms@.len() - i,
    {
        match pattern_match(v, &arms[i].pattern) {
            None => {
                return None;
            },
            Some(true) => {
                return Some(Some(i));
            },
            Some(false) => {},
        }
        i = i + 1;
    }
    Some(None)
}

proof fn lemma_depth(rt: &RunTime)
    ensures
        rt.frames().len() == rt.scopes@.len(),
{
}

impl RunTime {
    /// Evaluate an analysed expression (see [`sem_eval`]).
    pub fn eval_semantic_expr(&self, e: &SemanticExpr) -> (r: Result<Value, Stop>)
        ensures
            r == sem_eval(self.frames(), *e),
        decreases e,
    {
        match &e.kind {
            SemanticExprKind::Value(sv) => Ok(value_of(sv)),
            SemanticExprKind::VarRef { name, .. } => match self.get_var(name, 0) {
                Ok(v) => Ok(v),
                Err(x) => Err(Stop::Error(x)),
            },
            SemanticExprKind::Unary { op, expr, pos } => {
                let v = self.eval_semantic_expr(expr)?;
                match unary(*op, v, *pos) {
                    Ok(r) => Ok(r),
                    Err(x) => Err(Stop::Error(x)),
                }
            },
            SemanticExprKind::Binary { lhs, op, pos, rhs } => {
                let a = self.eval_semantic_expr(lhs)?;
                let decided = match (op, &a) {
                    (Op::And, Value::Bool(false)) | (Op::Or, Value::Bool(true)) => true,
                    (Op::And, Value::TBool(t)) => *t == 0,
                    (Op::Or, Value::TBool(t)) => *t == 1,
                    _ => false,
                };
                if decided {
                    return Ok(a);
                }
                let b = self.eval_semantic_expr(rhs)?;
                match apply_op(a, *op, *pos, b) {
                    Ok(OpOutcome::Done(v)) => Ok(v),
                    Ok(OpOutcome::FloatArith { op, left, right }) => Err(Stop::Float { op, left, right, pos: *pos }),
                    Err(x) => Err(Stop::Error(x)),
                }
            },
            SemanticExprKind::Call { callee, args, .. } => {
                proof {
                    reveal_strlit("is_known");
                }
                if crate::frontend::semantic::str_eq_string("is_known", callee) && args.len() > 0 {
                    match &args[0] {
                        SemanticCallArg::Expr(x) => {
                            proof {
                                assert(decreases_to!(*e => args@[0]));
                            }
                            let v = self.eval_semantic_expr(x)?;
                            let known = match &v {
                                Value::Unknown(_) => false,
                                Value::TBool(t) => *t != 2,
                                _ => true,
                            };
                            return Ok(Value::Bool(known));
                        },
                        _ => {},
                    }
                }
                Err(Stop::Unsupported)
            },
            SemanticExprKind::Range { .. } => Ok(Value::Num(0)),
            SemanticExprKind::Cast { expr, .. } => self.eval_semantic_expr(expr),
            _ => Err(Stop::Unsupported),
        }
    }
    /// Run analysed statements in order in the current scope (see
    /// [`sem_seq`]); the first stop ends the run.
    pub fn run_semantic_seq(&mut self, ss: &Vec<SemanticStmt>, fuel: u64) -> (r: Result<(), Stop>)
        requires
            old(self).wf(),
        ensures
            final(self).wf(),
            final(self).frames().len() == old(self).frames().len(),
            (final(self).state(), r) == sem_seq(old(self).state(), ss@, 0, fuel as nat),
        decreases fuel, ss@, 0nat,
    {
        let ghost st0 = self.state();
        let mut k: usize = 0;
        while k < ss.len()
            invariant
                k <= ss@.len(),
                self.wf(),
                self.frames().len() == st0.0.len(),
                st0 == old(self).state(),
                sem_seq(st0, ss@, 0, fuel as nat) == sem_seq(self.state(), ss@, k as int, fuel as nat),
            decreases ss@.len() - k,
        {
            proof {
                assert(decreases_to!(ss@ => ss@[k as int]));
            }
            let r = self.run_semantic_stmt(&ss[k], fuel);
            match r {
                Ok(()) => {},
                Err(x) => {
                    return Err(x);
                },
            }
            k = k + 1;
        }
        Ok(())
    }

    /// Run one analysed statement (see [`sem_exec`]), each loop allowed at
    /// most `fuel` iterations. The scope stack is left as deep as it was.
    #[verifier::rlimit(40)]
    pub fn run_semantic_stmt(&mut self, s: &SemanticStmt, fuel: u64) -> (r: Result<(), Stop>)
        requires
            old(self).wf(),
        ensures
            final(self).wf(),
            final(self).frames().len() == old(self).frames().len(),
            (final(self).state(), r) == sem_exec(old(self).state(), *s, fuel as nat),
        decreases fuel, s, 1nat,
    {
        proof {
            lemma_depth(self);
            match s {
                SemanticStmt::Assign { target: SemanticLValue::Binding { name, .. }, .. } => {
                    lemma_find_from(self.frames(), name@, self.frames().len() - 1);
                },
                SemanticStmt::CompoundAssign { name, .. } => {
                    lemma_find_from(self.frames(), name@, self.frames().len() - 1);
                },
                _ => {},
            }
        }
        match s {
            SemanticStmt::Print { expr, .. } => {
                let v = self.eval_semantic_expr(expr)?;
                self.output.push((v, true));
                Ok(())
            },
            SemanticStmt::PrintInline { expr, .. } => {
                let v = self.eval_semantic_expr(expr)?;
                self.output.push((v, false));
                Ok(())
            },
            SemanticStmt::Decl { name, ty, .. } => {
                let t = match ty {
                    Some(x) => Some(semantic_type_to_ast(x)),
                    None => None,
                };
                match self.declare(name.clone(), t, 0) {
                    Ok(()) => Ok(()),
                    Err(x) => Err(Stop::Error(x)),
                }
            },
            SemanticStmt::TypedAssign { name, ty, expr, .. } => {
                let v = self.eval_semantic_expr(expr)?;
                let t = semantic_type_to_ast(ty);
                let is_bool = match t {
                    Type::Bool => true,
                    _ => false,
                };
                let unknown = match &v {
                    Value::Unknown(_) => true,
                    _ => false,
                };
                let v2 = if is_bool && unknown {
                    Value::TBool(2)
                } else {
                    v
                };
                match self.set_var_typed(name.clone(), t, v2, 0) {
                    Ok(()) => Ok(()),
                    Err(x) => Err(Stop::Error(x)),
                }
            },
            SemanticStmt::Assign { target, expr, .. } => {
                let v = self.eval_semantic_expr(expr)?;
                match target {
                    SemanticLValue::Binding { name, .. } => match self.set_var(name.clone(), v, 0) {
                        Ok(()) => Ok(()),
                        Err(x) => Err(Stop::Error(x)),
                    },
                    SemanticLValue::DotAccess { .. } => Err(Stop::Unsupported),
                }
            },
            SemanticStmt::CompoundAssign { name, op, operand, .. } => {
                let cur = match self.get_var(name, 0) {
                    Ok(c) => c,
                    Err(x) => {
                        return Err(Stop::Error(x));
                    },
                };
                let rhs = self.eval_semantic_expr(operand)?;
                match apply_op(cur, *op, 0, rhs) {
                    Ok(OpOutcome::Done(v)) => match self.set_var(name.clone(), v, 0) {
                        Ok(()) => Ok(()),
                        Err(x) => Err(Stop::Error(x)),
                    },
                    Ok(OpOutcome::FloatArith { op, left, right }) => Err(Stop::Float { op, left, right, pos: 0 }),
                    Err(x) => Err(Stop::Error(x)),
                }
            },
            SemanticStmt::Return { expr, .. } => match expr {
                Some(e) => {
                    let v = self.eval_semantic_expr(e)?;
                    Err(Stop::Error(RuntimeError::EarlyReturn(v)))
                },
                None => Err(Stop::Error(RuntimeError::EarlyReturn(Value::Num(0)))),
            },
            SemanticStmt::ExprStmt { expr, .. } => {
                let _v = self.eval_semantic_expr(expr)?;
                Ok(())
            },
            SemanticStmt::Block { stmts, .. } => {
                let ghost st0 = self.state();
                self.push_scope();
                    proof { lemma_depth(self); }
                proof {
                    assert(self.state() == (st0.0.push(Seq::empty()), st0.1, st0.2));
                    assert(decreases_to!(*s => stmts@));
                }
                let r = self.run_semantic_seq(stmts, fuel);
                self.pop_scope();
                proof {
                    lemma_depth(self);
                    assert(self.frames().len() == st0.0.len());
                }
                r
            },
            SemanticStmt::While { cond, body, pos } => {
                let ghost st0 = self.state();
                let mut f: u64 = fuel;
                loop
                    invariant
                        self.wf(),
                        self.frames().len() == st0.0.len(),
                        st0 == old(self).state(),
                        f <= fuel,
                        *s == (SemanticStmt::While { cond: *cond, body: *body, pos: *pos }),
                        sem_exec(st0, *s, fuel as nat) == sem_exec(self.state(), *s, f as nat),
                    decreases f,
                {
                    let cv = match self.eval_semantic_expr(cond) {
                        Ok(v) => v,
                        Err(x) => {
                            return Err(x);
                        },
                    };
                    if !is_truthy(&cv) {
                        return Ok(());
                    }
                    if f == 0 {
                        return Err(Stop::OutOfFuel);
                    }
                    let ghost before = self.state();
                    self.push_scope();
                    proof { lemma_depth(self); }
                    proof {
                        assert(self.state() == (before.0.push(Seq::empty()), before.1, before.2));
                        assert(decreases_to!(*s => body@));
                    }
                    let r = self.run_semantic_seq(body, f);
                    self.pop_scope();
                    proof { lemma_depth(self); }
                    match r {
                        Ok(()) => {},
                        Err(Stop::Error(RuntimeError::ContinueSignal)) => {},
                        Err(Stop::Error(RuntimeError::BreakSignal)) => {
                            return Ok(());
                        },
                        Err(x) => {
                            return Err(x);
                        },
                    }
                    f = f - 1;
                }
            },
            SemanticStmt::Loop { body, pos } => {
                let ghost st0 = self.state();
                let mut f: u64 = fuel;
                loop
                    invariant
                        self.wf(),
                        self.frames().len() == st0.0.len(),
                        st0 == old(self).state(),
                        f <= fuel,
                        *s == (SemanticStmt::Loop { body: *body, pos: *pos }),
                        sem_exec(st0, *s, fuel as nat) == sem_exec(self.state(), *s, f as nat),
                    decreases f,
                {
                    if f == 0 {
                        return Err(Stop::OutOfFuel);
                    }
                    let ghost before = self.state();
                    self.push_scope();
                    proof { lemma_depth(self); }
                    proof {
                        assert(self.state() == (before.0.push(Seq::empty()), before.1, before.2));
                        assert(decreases_to!(*s => body@));
                    }
                    let r = self.run_semantic_seq(body, f);
                    self.pop_scope();
                    proof { lemma_depth(self); }
                    match r {
                        Ok(()) => {},
                        Err(Stop::Error(RuntimeError::ContinueSignal)) => {},
                        Err(Stop::Error(RuntimeError::BreakSignal)) => {
                            return Ok(());
                        },
                        Err(x) => {
                            return Err(x);
                        },
                    }
                    f = f - 1;
                }
            },
            SemanticStmt::For { binding, var, start, end, inclusive, body, pos } => {
                let a = match self.eval_semantic_expr(start) {
                    Ok(Value::Num(n)) => n,
                    Ok(_) => {
                        return Err(Stop::Error(RuntimeError::BadAssignTarget { pos: 0 }));
                    },
                    Err(x) => {
                        return Err(x);
                    },
                };
                let b = match self.eval_semantic_expr(end) {
                    Ok(Value::Num(n)) => n,
                    Ok(_) => {
                        return Err(Stop::Error(RuntimeError::BadAssignTarget { pos: 0 }));
                    },
                    Err(x) => {
                        return Err(x);
                    },
                };
                let ghost hi: int = if *inclusive { b + 1 } else { b as int };
                let ghost st0 = self.state();
                let mut i: u128 = a;
                let mut f: u64 = fuel;
                loop
                    invariant
                        self.wf(),
                        self.frames().len() == st0.0.len(),
                        st0 == old(self).state(),
                        f <= fuel,
                        hi == (if *inclusive { b + 1 } else { b as int }),
                        *s == (SemanticStmt::For {
                            binding: *binding,
                            var: *var,
                            start: *start,
                            end: *end,
                            inclusive: *inclusive,
                            body: *body,
                            pos: *pos,
                        }),
                        sem_exec(st0, *s, fuel as nat) == sem_for(self.state(), *s, i as int, hi, f as nat),
                    decreases f,
                {
                    let past = if *inclusive {
                        i > b
                    } else {
                        i >= b
                    };
                    if past {
                        return Ok(());
                    }
                    if f == 0 {
                        return Err(Stop::OutOfFuel);
                    }
                    let ghost before = self.state();
                    let ghost entry = (*var, VarEntry { ty: Some(Type::T128), val: Some(Value::Num(i)) });
                    let mut frame: Vec<(String, VarEntry)> = Vec::new();
                    frame.push((var.clone(), VarEntry { ty: Some(Type::T128), val: Some(Value::Num(i)) }));
                    self.scopes.push(frame);
                    proof { lemma_depth(self); }
                    proof {
                        assert(self.frames() =~= before.0.push(seq![entry]));
                        assert(decreases_to!(*s => body@));
                    }
                    let r = self.run_semantic_seq(body, f);
                    self.pop_scope();
                    proof { lemma_depth(self); }
                    match r {
                        Ok(()) => {},
                        Err(Stop::Error(RuntimeError::ContinueSignal)) => {},
                        Err(Stop::Error(RuntimeError::BreakSignal)) => {
                            return Ok(());
                        },
                        Err(x) => {
                            return Err(x);
                        },
                    }
                    if i == u128::MAX {
                        proof {
                            assert(sem_for(self.state(), *s, i as int + 1, hi, (f - 1) as nat) == (
                                self.state(),
                                Ok::<(), Stop>(()),
                            ));
                        }
                        return Ok(());
                    }
                    i = i + 1;
                    f = f - 1;
                }
            },
            SemanticStmt::Break { .. } => Err(Stop::Error(RuntimeError::BreakSignal)),
            SemanticStmt::Continue { .. } => Err(Stop::Error(RuntimeError::ContinueSignal)),
            SemanticStmt::When { expr, arms, .. } => {
                let v = self.eval_semantic_expr(expr)?;
                match find_arm(&v, arms) {
                    None => Err(Stop::Unsupported),
                    Some(None) => Ok(()),
                    Some(Some(k)) => {
                        let ghost st0 = self.state();
                        self.push_scope();
                        proof {
                            lemma_depth(self);
                            assert(self.state() == (st0.0.push(Seq::empty()), st0.1, st0.2));
                            assert(decreases_to!(*s => arms@[k as int].body@));
                        }
                        let r = self.run_semantic_seq(&arms[k].body, fuel);
                        self.pop_scope();
                        proof {
                            lemma_depth(self);
                        }
                        r
                    },
                }
            },
            SemanticStmt::EnumDef { .. } => Ok(()),
            _ => Err(Stop::Unsupported),
        }
    }
}

} // verus!
