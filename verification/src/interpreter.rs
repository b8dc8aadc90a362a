//! The tree-walking interpreter's core: nested scopes of variables,
//! expression evaluation and the execution of declarations, assignments,
//! prints, blocks and returns.
use vstd::prelude::*;
use crate::frontend::ast::{AstValue, CallArg, Expr, Op, ParamKind, Program, Stmt, Type, WhenArm, WhenBody, WhenPattern};
use crate::operators::{apply_op, op_rule, OpOutcome, RuntimeError, Value, VarEntry};
use crate::handle::{Handle, HandleRegistry, SlotState};

verus! {

/// The variables of each open scope, outermost first.
pub type Frames = Seq<Seq<(String, VarEntry)>>;

/// Why running stopped: a runtime error, float arithmetic the caller must
/// carry out, a construct this interpreter does not run, a loop that used
/// up the iterations it was allowed, or a full handle registry.
#[derive(Debug)]
pub enum Stop {
    Error(RuntimeError),
    Float { op: Op, left: Value, right: Value, pos: usize },
    Unsupported,
    OutOfFuel,
    /// The handle registry can hold no more values, or a slot's generation
    /// can count no higher.
    HandleLimit,
}

/// The interpreter's state: its scopes, what it has printed (each value
/// with whether a line ended after it) and the values stored behind handles.
pub struct RunTime {
    pub scopes: Vec<Vec<(String, VarEntry)>>,
    pub output: Vec<(Value, bool)>,
    pub handles: HandleRegistry<Value>,
}

pub open spec fn frames_of(scopes: Seq<Vec<(String, VarEntry)>>) -> Frames {
    scopes.map_values(|f: Vec<(String, VarEntry)>| f@)
}

/// The first entry of `frame` named `name` at or after `k`.
pub open spec fn index_from(frame: Seq<(String, VarEntry)>, name: Seq<char>, k: int) -> Option<int>
    decreases frame.len() - k,
{
    if k < 0 || k >= frame.len() {
        None
    } else if frame[k].0@ == name {
        Some(k)
    } else {
        index_from(frame, name, k + 1)
    }
}

/// The innermost frame at or below `i` declaring `name`, and the entry.
pub open spec fn find_from(fs: Frames, name: Seq<char>, i: int) -> Option<(int, int)>
    decreases i + 1,
{
    if i < 0 || i >= fs.len() {
        None
    } else {
        match index_from(fs[i], name, 0) {
            Some(j) => Some((i, j)),
            None => find_from(fs, name, i - 1),
        }
    }
}

pub open spec fn find_var(fs: Frames, name: Seq<char>) -> Option<(int, int)> {
    find_from(fs, name, fs.len() - 1)
}

pub(crate) proof fn lemma_index_from(frame: Seq<(String, VarEntry)>, name: Seq<char>, k: int)
    requires
        0 <= k,
    ensures
        index_from(frame, name, k) matches Some(j) ==> k <= j < frame.len() && frame[j].0@ == name,
    decreases frame.len() - k,
{
    if k < frame.len() && frame[k].0@ != name {
        lemma_index_from(frame, name, k + 1);
    }
}

pub(crate) proof fn lemma_find_from(fs: Frames, name: Seq<char>, i: int)
    ensures
        find_from(fs, name, i) matches Some((a, b)) ==> 0 <= a <= i && a < fs.len() && 0 <= b < fs[a].len()
            && fs[a][b].0@ == name,
    decreases i + 1,
{
    if 0 <= i < fs.len() {
        lemma_index_from(fs[i], name, 0);
        lemma_find_from(fs, name, i - 1);
    }
}

/// The type a value has at run time.
pub open spec fn type_of_value(v: Value) -> Type {
    match v {
        Value::Num(_) => Type::T128,
        Value::Float(_) => Type::T64,
        Value::Str(_) => Type::Str,
        Value::Bool(_) => Type::Bool,
        Value::TBool(_) => Type::Bool,
        Value::Char(_) => Type::Char,
        Value::EnumVariant(e, _) => Type::Enum(e),
        Value::Unknown(_) => Type::Unknown,
        Value::Handle(_) => Type::Handle(Box::new(Type::T128)),
    }
}

/// Whether a value may be stored in a variable of type `t`: numbers and
/// floats in any integer type, strings in `str`, and `Unknown` anywhere.
pub open spec fn value_matches_type(v: Value, t: Type) -> bool {
    match (v, t) {
        (Value::Num(_), Type::T8) | (Value::Num(_), Type::T16) | (Value::Num(_), Type::T32) | (
            Value::Num(_),
            Type::T64,
        ) | (Value::Num(_), Type::T128) => true,
        (Value::Float(_), Type::T8) | (Value::Float(_), Type::T16) | (Value::Float(_), Type::T32) | (
            Value::Float(_),
            Type::T64,
        ) | (Value::Float(_), Type::T128) => true,
        (Value::Str(_), Type::Str) | (Value::Str(_), Type::StrRef) => true,
        (Value::Bool(_), Type::Bool) | (Value::TBool(_), Type::Bool) => true,
        (Value::Char(_), Type::Char) => true,
        (Value::EnumVariant(e, _), Type::Enum(t)) => e@ == t@,
        (Value::Handle(_), Type::Handle(_)) => true,
        (Value::Unknown(_), _) => true,
        _ => false,
    }
}

/// Reading a variable: its value in the innermost scope declaring it.
pub open spec fn get_spec(fs: Frames, name: String, pos: usize) -> Result<Value, RuntimeError> {
    match find_var(fs, name@) {
        Some((i, j)) => match fs[i][j].1.val {
            Some(v) => Ok(v),
            None => Err(RuntimeError::UninitializedVar { pos, name }),
        },
        None => Err(RuntimeError::UndefinedVar { pos, name }),
    }
}

/// Declaring a variable in the innermost scope.
pub open spec fn declare_spec(fs: Frames, name: String, ty: Option<Type>, pos: usize) -> Result<Frames, RuntimeError> {
    let last = fs.len() - 1;
    if index_from(fs[last], name@, 0) is Some {
        Err(RuntimeError::AlreadyDeclared { pos, name })
    } else {
        Ok(fs.update(last, fs[last].push((name, VarEntry { ty, val: None }))))
    }
}

/// Assigning to a declared variable: an untyped one takes the value's
/// type; the value must fit the variable's type.
pub open spec fn set_spec(fs: Frames, name: String, v: Value, pos: usize) -> Result<Frames, RuntimeError> {
    match find_var(fs, name@) {
        None => Err(RuntimeError::UndefinedVar { pos, name }),
        Some((i, j)) => {
            let entry = fs[i][j].1;
            let ty = match entry.ty {
                Some(t) => t,
                None => type_of_value(v),
            };
            if !value_matches_type(v, ty) {
                Err(RuntimeError::TypeMismatch { pos, expected: ty, got: type_of_value(v) })
            } else {
                Ok(fs.update(i, fs[i].update(j, (fs[i][j].0, VarEntry { ty: Some(ty), val: Some(v) }))))
            }
        },
    }
}

/// Declaring a variable with a type and a value in the innermost scope.
pub open spec fn set_typed_spec(fs: Frames, name: String, ty: Type, v: Value, pos: usize) -> Result<
    Frames,
    RuntimeError,
> {
    let last = fs.len() - 1;
    if !value_matches_type(v, ty) {
        Err(RuntimeError::TypeMismatch { pos, expected: ty, got: type_of_value(v) })
    } else if index_from(fs[last], name@, 0) is Some {
        Err(RuntimeError::AlreadyDeclared { pos, name })
    } else {
        Ok(fs.update(last, fs[last].push((name, VarEntry { ty: Some(ty), val: Some(v) }))))
    }
}

/// The value a literal stands for.
pub open spec fn literal_value(v: AstValue) -> Value {
    match v {
        AstValue::Num(n) => Value::Num(n),
        AstValue::Float(b) => Value::Float(b),
        AstValue::Str(s) => Value::Str(s),
        AstValue::Bool(b) => Value::Bool(b),
        AstValue::Char(c) => Value::Char(c),
        AstValue::EnumVariant(e, n) => Value::EnumVariant(e, n),
        AstValue::Unknown => Value::Unknown(Type::Unknown),
    }
}

/// A prefix operator: `-` negates a number (wrapping) or a float (its sign
/// bit), `*` passes a value through.
pub open spec fn unary_spec(op: Op, v: Value, pos: usize) -> Result<Value, RuntimeError> {
    match (op, v) {
        (Op::Minus, Value::Num(n)) => Ok(Value::Num(if n == 0 { 0 } else { (u128::MAX - n + 1) as u128 })),
        (Op::Minus, Value::Float(b)) => Ok(Value::Float(if b >= 0x8000_0000_0000_0000 {
            (b - 0x8000_0000_0000_0000) as u64
        } else {
            (b + 0x8000_0000_0000_0000) as u64
        })),
        (Op::Mul, v) => Ok(v),
        _ => Err(RuntimeError::TypeMismatch { pos, expected: Type::Unknown, got: Type::Unknown }),
    }
}

/// The handle registry as the run time sees it: each slot's value and
/// generation, the freed slots in the order they were freed, and each
/// slot's region tag.
pub type Handles = (Seq<SlotState<Value>>, Seq<u32>, Seq<u32>);

pub open spec fn handles_of(r: HandleRegistry<Value>) -> Handles {
    (r.slot_states(), r.free_slots(), r.region_ids())
}

/// What a handle finds: the slot's value when the slot exists and its
/// generation matches, nothing otherwise.
pub open spec fn hm_lookup(hm: Handles, h: Handle) -> Option<Value> {
    if h.slot < hm.0.len() && hm.0[h.slot as int].1 == h.gen {
        hm.0[h.slot as int].0
    } else {
        None
    }
}

/// Whether a value can be stored: a freed slot to reuse, or a fresh slot
/// index that a `u32` can name.
pub open spec fn hm_has_room(hm: Handles) -> bool {
    hm.1.len() > 0 || hm.0.len() < u32::MAX
}

/// Storing a value: the most recently freed slot is reused under its
/// current generation, else a fresh slot with generation 0 is added.
pub open spec fn hm_insert(hm: Handles, v: Value) -> (Handles, Handle) {
    if hm.1.len() > 0 {
        let slot = hm.1.last();
        let h = Handle { slot, gen: hm.0[slot as int].1 };
        ((hm.0.update(slot as int, (Some(v), h.gen)), hm.1.drop_last(), hm.2), h)
    } else {
        let h = Handle { slot: hm.0.len() as u32, gen: 0 };
        ((hm.0.push((Some(v), 0u32)), hm.1, hm.2.push(0u32)), h)
    }
}

/// Dropping through a handle: a live value's slot is emptied, its
/// generation bumped (so every copy of the handle is stale) and the slot
/// freed; a stale handle changes nothing.
pub open spec fn hm_remove(hm: Handles, h: Handle) -> Handles {
    if hm_lookup(hm, h) is Some {
        (hm.0.update(h.slot as int, (None, (h.gen + 1) as u32)), hm.1.push(h.slot), hm.2)
    } else {
        hm
    }
}

/// The state a run works on: the scopes, the output so far and the handle
/// registry.
pub type State = (Frames, Seq<(Value, bool)>, Handles);

/// The state and the verdict after running something.
pub type Run = (State, Result<(), Stop>);

/// The index of the last definition of a function named `name` among the
/// program's top-level statements before the `i`-th.
pub open spec fn find_func(prog: Seq<Stmt>, name: Seq<char>, i: int) -> Option<int>
    decreases i,
{
    if i <= 0 || i > prog.len() {
        None
    } else {
        match prog[i - 1] {
            Stmt::FuncDef { name: n, .. } => if n@ == name {
                Some(i - 1)
            } else {
                find_func(prog, name, i - 1)
            },
            _ => find_func(prog, name, i - 1),
        }
    }
}

/// An argument bound to a parameter: the parameter's name, its value, and,
/// for a `.copy` parameter, the caller's variable it returns to.
pub type Bound = (String, Value, Option<String>);

/// Declaring the bound parameters from the `k`-th on in the innermost
/// scope, each with the type of its value.
pub open spec fn bind_params(fs: Frames, bs: Seq<Bound>, k: int, pos: usize) -> Result<Frames, RuntimeError>
    decreases bs.len() - k,
{
    if k < 0 || k >= bs.len() {
        Ok(fs)
    } else {
        match set_typed_spec(fs, bs[k].0, type_of_value(bs[k].1), bs[k].1, pos) {
            Ok(fs2) => bind_params(fs2, bs, k + 1, pos),
            Err(x) => Err(x),
        }
    }
}

/// One `.copy` parameter's return: when it holds a value in the closed
/// scope `top`, the caller's variable `o` in scope `outer` takes it.
pub open spec fn write_back_one(fs: Frames, top: Seq<(String, VarEntry)>, b: Bound, outer: int) -> Frames {
    match b.2 {
        Some(o) => match index_from(top, b.0@, 0) {
            Some(j) => match top[j].1.val {
                Some(v) => if 0 <= outer < fs.len() {
                    match index_from(fs[outer], o@, 0) {
                        Some(jj) => fs.update(
                            outer,
                            fs[outer].update(jj, (fs[outer][jj].0, VarEntry { ty: fs[outer][jj].1.ty, val: Some(v) })),
                        ),
                        None => fs,
                    }
                } else {
                    fs
                },
                None => fs,
            },
            None => fs,
        },
        None => fs,
    }
}

/// Returning the `.copy` parameters from the `k`-th binding on; nothing
/// else changes.
pub open spec fn write_back(fs: Frames, top: Seq<(String, VarEntry)>, bs: Seq<Bound>, outer: int, k: int) -> Frames
    decreases bs.len() - k,
{
    if k < 0 || k >= bs.len() {
        fs
    } else {
        write_back(write_back_one(fs, top, bs[k], outer), top, bs, outer, k + 1)
    }
}

/// Evaluating an expression: the state afterwards (a call may print,
/// store handles and return `.copy` parameters) and the value or why
/// evaluation stopped. Each call uses one unit of `fuel`.
pub open spec fn eval_spec(prog: Seq<Stmt>, st: State, e: Expr, fuel: nat) -> (State, Result<Value, Stop>)
    decreases fuel, 0nat, e, 0nat,
{
    let (fs, out, hm) = st;
    match e {
        Expr::Val(v) => (st, Ok(literal_value(v))),
        Expr::Ident(name, pos) => (
            st,
            match get_spec(fs, name, pos) {
                Ok(v) => Ok(v),
                Err(x) => Err(Stop::Error(x)),
            },
        ),
        Expr::Unary(op, x, pos) => {
            let (s1, r) = eval_spec(prog, st, *x, fuel);
            (
                s1,
                match r {
                    Ok(v) => match unary_spec(op, v, pos) {
                        Ok(r) => Ok(r),
                        Err(x) => Err(Stop::Error(x)),
                    },
                    Err(s) => Err(s),
                },
            )
        },
        Expr::Call(name, args, pos) => if name@ == "is_known"@ {
            if args@.len() > 0 && args@[0] is Expr {
                let (s1, r) = eval_spec(prog, st, args@[0]->Expr_0, fuel);
                (
                    s1,
                    match r {
                        Ok(v) => Ok(Value::Bool(!(v is Unknown || v == Value::TBool(2)))),
                        Err(x) => Err(x),
                    },
                )
            } else {
                (st, Err(Stop::Error(RuntimeError::UndefinedVar { pos, name })))
            }
        } else {
            match find_func(prog, name@, prog.len() as int) {
                None => (st, Err(Stop::Error(RuntimeError::UndefinedVar { pos, name }))),
                Some(k) => match prog[k] {
                    Stmt::FuncDef { params, body, ret_expr, .. } => call_spec(
                        prog,
                        st,
                        params@,
                        body@,
                        ret_expr,
                        args@,
                        pos,
                        fuel,
                    ),
                    _ => (st, Err(Stop::Unsupported)),
                },
            }
        },
        Expr::Bin(l, op, pos, r) => {
            let (s1, a) = eval_spec(prog, st, *l, fuel);
            match a {
                Err(s) => (s1, Err(s)),
                Ok(av) => {
                    let (s2, b) = eval_spec(prog, s1, *r, fuel);
                    (
                        s2,
                        match b {
                            Ok(bv) => match op_rule(av, op, pos, bv) {
                                Ok(OpOutcome::Done(v)) => Ok(v),
                                Ok(OpOutcome::FloatArith { op, left, right }) => Err(Stop::Float { op, left, right, pos }),
                                Err(x) => Err(Stop::Error(x)),
                            },
                            Err(s) => Err(s),
                        },
                    )
                },
            }
        },
        Expr::HandleNew(x, _) => {
            let (s1, r) = eval_spec(prog, st, *x, fuel);
            match r {
                Err(s) => (s1, Err(s)),
                Ok(v) => if hm_has_room(s1.2) {
                    let (h2, h) = hm_insert(s1.2, v);
                    ((s1.0, s1.1, h2), Ok(Value::Handle(h)))
                } else {
                    (s1, Err(Stop::HandleLimit))
                },
            }
        },
        Expr::HandleVal(name, pos) => match get_spec(fs, name, pos) {
            Err(x) => (st, Err(Stop::Error(x))),
            Ok(Value::Handle(h)) => (
                st,
                match hm_lookup(hm, h) {
                    Some(v) => Ok(v),
                    None => Err(Stop::Error(RuntimeError::StaleHandle { pos })),
                },
            ),
            Ok(_) => (st, Err(Stop::Error(RuntimeError::StaleHandle { pos }))),
        },
        Expr::HandleDrop(name, pos) => match get_spec(fs, name, pos) {
            Err(x) => (st, Err(Stop::Error(x))),
            Ok(Value::Handle(h)) => if hm_lookup(hm, h) is Some && h.gen == u32::MAX {
                (st, Err(Stop::HandleLimit))
            } else {
                ((fs, out, hm_remove(hm, h)), Ok(Value::Num(0)))
            },
            Ok(_) => (st, Err(Stop::Error(RuntimeError::StaleHandle { pos }))),
        },
        _ => (st, Err(Stop::Unsupported)),
    }
}

/// Matching arguments to parameters pairwise from the `i`-th on (surplus
/// arguments or parameters are ignored): a typed parameter takes the value
/// of an expression, `.copy` and `.copy.free` parameters the value of the
/// caller's variable; any other pairing is a bad call.
pub open spec fn resolve_args(
    prog: Seq<Stmt>,
    st: State,
    params: Seq<ParamKind>,
    args: Seq<CallArg>,
    i: int,
    acc: Seq<Bound>,
    pos: usize,
    fuel: nat,
) -> (State, Result<Seq<Bound>, Stop>)
    decreases fuel, 0nat, args, args.len() - i,
{
    if i < 0 || i >= params.len() || i >= args.len() {
        (st, Ok(acc))
    } else {
        match (params[i], args[i]) {
            (ParamKind::Typed(p, _), CallArg::Expr(e)) => {
                let (s1, r) = eval_spec(prog, st, e, fuel);
                match r {
                    Ok(v) => resolve_args(prog, s1, params, args, i + 1, acc.push((p, v, None)), pos, fuel),
                    Err(x) => (s1, Err(x)),
                }
            },
            (ParamKind::Copy(p), CallArg::Copy(o)) => match get_spec(st.0, o, pos) {
                Ok(v) => resolve_args(prog, st, params, args, i + 1, acc.push((p, v, Some(o))), pos, fuel),
                Err(x) => (st, Err(Stop::Error(x))),
            },
            (ParamKind::CopyFree(p), CallArg::CopyFree(o)) => match get_spec(st.0, o, pos) {
                Ok(v) => resolve_args(prog, st, params, args, i + 1, acc.push((p, v, None)), pos, fuel),
                Err(x) => (st, Err(Stop::Error(x))),
            },
            (ParamKind::CopyInto(_, _), CallArg::CopyInto(_)) => (st, Err(Stop::Unsupported)),
            _ => (st, Err(Stop::Error(RuntimeError::BadAssignTarget { pos }))),
        }
    }
}

/// Calling a function with the given parameters, body and result
/// expression: the arguments are resolved in the caller's scopes, bound in
/// a new scope, and the body run there with one unit of fuel less; a
/// `return` or the result expression (else 0) gives the value. The call's
/// scope then closes, returning each `.copy` parameter to the caller's
/// variable. A failure while binding leaves the caller's scopes as they
/// were; with no fuel left the call does not start.
pub open spec fn call_spec(
    prog: Seq<Stmt>,
    st: State,
    params: Seq<ParamKind>,
    body: Seq<Stmt>,
    ret_expr: Option<Expr>,
    args: Seq<CallArg>,
    pos: usize,
    fuel: nat,
) -> (State, Result<Value, Stop>)
    decreases fuel, 0nat, args, args.len() + 1,
{
    let (s1, rr) = resolve_args(prog, st, params, args, 0, Seq::empty(), pos, fuel);
    match rr {
        Err(x) => (s1, Err(x)),
        Ok(bs) => if fuel == 0 {
            (s1, Err(Stop::OutOfFuel))
        } else {
            match bind_params(s1.0.push(Seq::empty()), bs, 0, pos) {
                Err(x) => (s1, Err(Stop::Error(x))),
                Ok(fs1) => {
                    let (st2, r) = exec_block(prog, (fs1, s1.1, s1.2), body, 0, (fuel - 1) as nat);
                    let (st3, rv) = match r {
                        Ok(()) => match ret_expr {
                            Some(e) => eval_spec(prog, st2, e, (fuel - 1) as nat),
                            None => (st2, Ok(Value::Num(0))),
                        },
                        Err(Stop::Error(RuntimeError::EarlyReturn(v))) => (st2, Ok(v)),
                        Err(x) => (st2, Err(x)),
                    };
                    ((write_back(st3.0.drop_last(), st3.0.last(), bs, s1.0.len() - 1, 0), st3.1, st3.2), rv)
                },
            }
        },
    }
}

/// Whether a value falls under a `when` pattern; `None` for a group
/// pattern, whose membership comes from enum declarations this state does
/// not hold.
pub open spec fn when_matches(v: Value, p: WhenPattern) -> Option<bool> {
    match p {
        WhenPattern::Catchall => Some(true),
        WhenPattern::Literal(AstValue::Unknown) => Some(v is Unknown),
        WhenPattern::Literal(AstValue::Bool(b)) => Some(v == Value::Bool(b)),
        WhenPattern::Literal(AstValue::Num(n)) => Some(v == Value::Num(n)),
        WhenPattern::Literal(_) => Some(false),
        WhenPattern::EnumVariant(en, vn) => Some(
            match v {
                Value::EnumVariant(e, x) => e@ == en@ && x@ == vn@,
                _ => false,
            },
        ),
        WhenPattern::Range(AstValue::Num(a), AstValue::Num(b), inclusive) => Some(
            match v {
                Value::Num(n) => a <= n && (if inclusive { n <= b } else { n < b }),
                _ => false,
            },
        ),
        WhenPattern::Range(_, _, _) => Some(false),
        WhenPattern::Group(_, _) => None,
        WhenPattern::Placeholder => Some(false),
    }
}

/// The first arm from the `i`-th on whose pattern the value falls under
/// (`Some(None)` if none does); `None` if a group pattern comes first.
pub open spec fn first_when_arm(v: Value, arms: Seq<WhenArm>, i: int) -> Option<Option<int>>
    decreases arms.len() - i,
{
    if i < 0 || i >= arms.len() {
        Some(None)
    } else {
        match when_matches(v, arms[i].pattern) {
            None => None,
            Some(true) => Some(Some(i)),
            Some(false) => first_when_arm(v, arms, i + 1),
        }
    }
}

/// The outcome of a change to the scopes: the new scopes, or the error with
/// the scopes left as they were.
pub open spec fn lift(fs: Frames, r: Result<Frames, RuntimeError>, out: Seq<(Value, bool)>, hm: Handles) -> Run {
    match r {
        Ok(fs2) => ((fs2, out, hm), Ok(())),
        Err(x) => ((fs, out, hm), Err(Stop::Error(x))),
    }
}

/// Running one statement: the state afterwards (also when it stops) and
/// whether it stopped. A function definition is found by calls through the
/// program's statements, so running one does nothing.
pub open spec fn exec_spec(prog: Seq<Stmt>, st: State, s: Stmt, fuel: nat) -> Run
    decreases fuel, 1nat, s, 1nat,
{
    match s {
        Stmt::Decl { name, ty, pos } => lift(st.0, declare_spec(st.0, name, ty, pos), st.1, st.2),
        Stmt::Assign { target, expr, pos_eq } => {
            let (s1, r) = eval_spec(prog, st, expr, fuel);
            match r {
                Err(x) => (s1, Err(x)),
                Ok(v) => match target {
                    Expr::Ident(name, _) => lift(s1.0, set_spec(s1.0, name, v, pos_eq), s1.1, s1.2),
                    Expr::DotAccess(_, _) => (s1, Err(Stop::Unsupported)),
                    _ => (s1, Err(Stop::Error(RuntimeError::BadAssignTarget { pos: pos_eq }))),
                },
            }
        },
        Stmt::TypedAssign { name, ty, expr, pos_type } => {
            let (s1, r) = eval_spec(prog, st, expr, fuel);
            match r {
                Err(x) => (s1, Err(x)),
                Ok(v) => {
                    let v2 = if ty == Type::Bool && v is Unknown { Value::TBool(2) } else { v };
                    lift(s1.0, set_typed_spec(s1.0, name, ty, v2, pos_type), s1.1, s1.2)
                },
            }
        },
        Stmt::CompoundAssign { name, op, operand, pos } => match get_spec(st.0, name, pos) {
            Err(x) => (st, Err(Stop::Error(x))),
            Ok(cur) => {
                let (s1, r) = eval_spec(prog, st, operand, fuel);
                match r {
                    Err(x) => (s1, Err(x)),
                    Ok(rhs) => match op_rule(cur, op, pos, rhs) {
                        Ok(OpOutcome::Done(v)) => lift(s1.0, set_spec(s1.0, name, v, pos), s1.1, s1.2),
                        Ok(OpOutcome::FloatArith { op, left, right }) => (s1, Err(Stop::Float { op, left, right, pos })),
                        Err(x) => (s1, Err(Stop::Error(x))),
                    },
                }
            },
        },
        Stmt::Print { expr, .. } => {
            let (s1, r) = eval_spec(prog, st, expr, fuel);
            match r {
                Ok(v) => ((s1.0, s1.1.push((v, true)), s1.2), Ok(())),
                Err(x) => (s1, Err(x)),
            }
        },
        Stmt::PrintInline { expr, .. } => {
            let (s1, r) = eval_spec(prog, st, expr, fuel);
            match r {
                Ok(v) => ((s1.0, s1.1.push((v, false)), s1.2), Ok(())),
                Err(x) => (s1, Err(x)),
            }
        },
        Stmt::ExprStmt { expr, .. } => {
            let (s1, r) = eval_spec(prog, st, expr, fuel);
            match r {
                Ok(_) => (s1, Ok(())),
                Err(x) => (s1, Err(x)),
            }
        },
        Stmt::Return { expr, .. } => match expr {
            Some(e) => {
                let (s1, r) = eval_spec(prog, st, e, fuel);
                match r {
                    Ok(v) => (s1, Err(Stop::Error(RuntimeError::EarlyReturn(v)))),
                    Err(x) => (s1, Err(x)),
                }
            },
            None => (st, Err(Stop::Error(RuntimeError::EarlyReturn(Value::Num(0))))),
        },
        Stmt::FuncDef { .. } => (st, Ok(())),
        Stmt::Block { stmts, .. } => {
            let (st2, r) = exec_block(prog, (st.0.push(Seq::empty()), st.1, st.2), stmts@, 0, fuel);
            ((st2.0.drop_last(), st2.1, st2.2), r)
        },
        Stmt::While { cond, body, .. } => {
            let (s1, c) = eval_spec(prog, st, cond, fuel);
            match c {
                Err(x) => (s1, Err(x)),
                Ok(cv) => if cv != Value::Bool(true) {
                    (s1, Ok(()))
                } else if fuel == 0 {
                    (s1, Err(Stop::OutOfFuel))
                } else {
                    let (st2, r) = exec_block(prog, (s1.0.push(Seq::empty()), s1.1, s1.2), body@, 0, fuel);
                    let st3 = (st2.0.drop_last(), st2.1, st2.2);
                    match r {
                        Ok(()) => exec_spec(prog, st3, s, (fuel - 1) as nat),
                        Err(Stop::Error(RuntimeError::ContinueSignal)) => exec_spec(prog, st3, s, (fuel - 1) as nat),
                        Err(Stop::Error(RuntimeError::BreakSignal)) => (st3, Ok(())),
                        Err(x) => (st3, Err(x)),
                    }
                },
            }
        },
        Stmt::Loop { body, .. } => if fuel == 0 {
            (st, Err(Stop::OutOfFuel))
        } else {
            let (st2, r) = exec_block(prog, (st.0.push(Seq::empty()), st.1, st.2), body@, 0, fuel);
            let st3 = (st2.0.drop_last(), st2.1, st2.2);
            match r {
                Ok(()) => exec_spec(prog, st3, s, (fuel - 1) as nat),
                Err(Stop::Error(RuntimeError::ContinueSignal)) => exec_spec(prog, st3, s, (fuel - 1) as nat),
                Err(Stop::Error(RuntimeError::BreakSignal)) => (st3, Ok(())),
                Err(x) => (st3, Err(x)),
            }
        },
        Stmt::For { start, end, inclusive, .. } => {
            let (s1, a) = eval_spec(prog, st, start, fuel);
            match a {
                Err(x) => (s1, Err(x)),
                Ok(Value::Num(lo)) => {
                    let (s2, b) = eval_spec(prog, s1, end, fuel);
                    match b {
                        Err(x) => (s2, Err(x)),
                        Ok(Value::Num(hi)) => exec_for(prog, s2, s, lo as int, if inclusive { hi + 1 } else { hi as int }, fuel),
                        Ok(_) => (s2, Err(Stop::Error(RuntimeError::BadAssignTarget { pos: 0 }))),
                    }
                },
                Ok(_) => (s1, Err(Stop::Error(RuntimeError::BadAssignTarget { pos: 0 }))),
            }
        },
        Stmt::When { expr, arms, .. } => {
            let (s1, ev) = eval_spec(prog, st, expr, fuel);
            match ev {
                Err(x) => (s1, Err(x)),
                Ok(v) => match first_when_arm(v, arms@, 0) {
                    None => (s1, Err(Stop::Unsupported)),
                    Some(None) => (s1, Ok(())),
                    Some(Some(k)) => if 0 <= k < arms@.len() {
                        match arms@[k].body {
                            WhenBody::Stmts(ss) => {
                                let (st2, r) = exec_block(prog, (s1.0.push(Seq::empty()), s1.1, s1.2), ss@, 0, fuel);
                                ((st2.0.drop_last(), st2.1, st2.2), r)
                            },
                            WhenBody::SuperGroup(_) => (s1, Ok(())),
                        }
                    } else {
                        (s1, Ok(()))
                    },
                },
            }
        },
        Stmt::Break { .. } => (st, Err(Stop::Error(RuntimeError::BreakSignal))),
        Stmt::Continue { .. } => (st, Err(Stop::Error(RuntimeError::ContinueSignal))),
        Stmt::EnumDef { .. } => (st, Ok(())),
    }
}

/// The iterations of a `for` loop from `i` up to (not including) `hi`: each
/// runs the body in a new scope holding the loop variable, and uses one
/// unit of fuel.
pub open spec fn exec_for(prog: Seq<Stmt>, st: State, s: Stmt, i: int, hi: int, fuel: nat) -> Run
    decreases fuel, 1nat, s, 0nat,
{
    match s {
        Stmt::For { var, body, .. } => if i >= hi {
            (st, Ok(()))
        } else if fuel == 0 {
            (st, Err(Stop::OutOfFuel))
        } else {
            let frame = seq![(var, VarEntry { ty: Some(Type::T128), val: Some(Value::Num(i as u128)) })];
            let (st2, r) = exec_block(prog, (st.0.push(frame), st.1, st.2), body@, 0, fuel);
            let st3 = (st2.0.drop_last(), st2.1, st2.2);
            match r {
                Ok(()) => exec_for(prog, st3, s, i + 1, hi, (fuel - 1) as nat),
                Err(Stop::Error(RuntimeError::ContinueSignal)) => exec_for(prog, st3, s, i + 1, hi, (fuel - 1) as nat),
                Err(Stop::Error(RuntimeError::BreakSignal)) => (st3, Ok(())),
                Err(x) => (st3, Err(x)),
            }
        },
        _ => (st, Ok(())),
    }
}

/// Running the statements of a block from the `i`-th on; the first stop
/// ends the block.
pub open spec fn exec_block(prog: Seq<Stmt>, st: State, ss: Seq<Stmt>, i: int, fuel: nat) -> Run
    decreases fuel, 1nat, ss, ss.len() - i,
{
    if i < 0 || i >= ss.len() {
        (st, Ok(()))
    } else {
        let (st2, r) = exec_spec(prog, st, ss[i], fuel);
        match r {
            Ok(()) => exec_block(prog, st2, ss, i + 1, fuel),
            Err(x) => (st2, Err(x)),
        }
    }
}

proof fn lemma_block_decreases(s: Stmt, stmts: Vec<Stmt>, pos: usize, k: int)
    requires
        s == (Stmt::Block { stmts, _pos: pos }),
        0 <= k < stmts@.len(),
    ensures
        decreases_to!(s => stmts@[k]),
{
    assert(decreases_to!(s => s->Block_stmts));
    assert(decreases_to!(s => stmts@[k]));
}

// ── Executable interpreter ───────────────────────────────────────────────────

pub(crate) fn clone_value(v: &Value) -> (r: Value)
    ensures
        r == *v,
{
    match v {
        Value::Num(n) => Value::Num(*n),
        Value::Float(b) => Value::Float(*b),
        Value::Str(s) => Value::Str(s.clone()),
        Value::Bool(b) => Value::Bool(*b),
        Value::Char(c) => Value::Char(*c),
        Value::TBool(t) => Value::TBool(*t),
        Value::EnumVariant(e, n) => Value::EnumVariant(e.clone(), n.clone()),
        Value::Unknown(t) => Value::Unknown(t.clone()),
        Value::Handle(h) => Value::Handle(*h),
    }
}

fn clone_opt_type(t: &Option<Type>) -> (r: Option<Type>)
    ensures
        r == *t,
{
    match t {
        Some(x) => Some(x.clone()),
        None => None,
    }
}

pub(crate) fn type_of(v: &Value) -> (t: Type)
    ensures
        t == type_of_value(*v),
{
    match v {
        Value::Num(_) => Type::T128,
        Value::Float(_) => Type::T64,
        Value::Str(_) => Type::Str,
        Value::Bool(_) => Type::Bool,
        Value::TBool(_) => Type::Bool,
        Value::Char(_) => Type::Char,
        Value::EnumVariant(e, _) => Type::Enum(e.clone()),
        Value::Unknown(_) => Type::Unknown,
        Value::Handle(_) => Type::Handle(Box::new(Type::T128)),
    }
}

fn matches_type(v: &Value, t: &Type) -> (b: bool)
    ensures
        b == value_matches_type(*v, *t),
{
    match (v, t) {
        (Value::Num(_), Type::T8) | (Value::Num(_), Type::T16) | (Value::Num(_), Type::T32) | (
            Value::Num(_),
            Type::T64,
        ) | (Value::Num(_), Type::T128) => true,
        (Value::Float(_), Type::T8) | (Value::Float(_), Type::T16) | (Value::Float(_), Type::T32) | (
            Value::Float(_),
            Type::T64,
        ) | (Value::Float(_), Type::T128) => true,
        (Value::Str(_), Type::Str) | (Value::Str(_), Type::StrRef) => true,
        (Value::Bool(_), Type::Bool) | (Value::TBool(_), Type::Bool) => true,
        (Value::Char(_), Type::Char) => true,
        (Value::EnumVariant(e, _), Type::Enum(n)) => crate::frontend::semantic::str_eq_string(e.as_str(), n),
        (Value::Handle(_), Type::Handle(_)) => true,
        (Value::Unknown(_), _) => true,
        _ => false,
    }
}

pub(crate) fn index_in(frame: &Vec<(String, VarEntry)>, name: &String) -> (r: Option<usize>)
    ensures
        match r {
            Some(j) => index_from(frame@, name@, 0) == Some(j as int) && j < frame@.len(),
            None => index_from(frame@, name@, 0) is None,
        },
{
    let mut k: usize = 0;
    while k < frame.len()
        invariant
            k <= frame@.len(),
            index_from(frame@, name@, 0) == index_from(frame@, name@, k as int),
        decreases frame@.len() - k,
    {
        if crate::frontend::semantic::str_eq_string(frame[k].0.as_str(), name) {
            return Some(k);
        }
        k = k + 1;
    }
    None
}

fn literal(v: &AstValue) -> (r: Value)
    ensures
        r == literal_value(*v),
{
    match v {
        AstValue::Num(n) => Value::Num(*n),
        AstValue::Float(b) => Value::Float(*b),
        AstValue::Str(s) => Value::Str(s.clone()),
        AstValue::Bool(b) => Value::Bool(*b),
        AstValue::Char(c) => Value::Char(*c),
        AstValue::EnumVariant(e, n) => Value::EnumVariant(e.clone(), n.clone()),
        AstValue::Unknown => Value::Unknown(Type::Unknown),
    }
}

pub(crate) fn unary(op: Op, v: Value, pos: usize) -> (r: Result<Value, RuntimeError>)
    ensures
        r == unary_spec(op, v, pos),
{
    match (op, v) {
        (Op::Minus, Value::Num(n)) => Ok(Value::Num(if n == 0 { 0 } else { u128::MAX - n + 1 })),
        (Op::Minus, Value::Float(b)) => Ok(Value::Float(if b >= 0x8000_0000_0000_0000 {
            b - 0x8000_0000_0000_0000
        } else {
            b + 0x8000_0000_0000_0000
        })),
        (Op::Mul, v) => Ok(v),
        _ => Err(RuntimeError::TypeMismatch { pos, expected: Type::Unknown, got: Type::Unknown }),
    }
}

fn when_match(v: &Value, p: &WhenPattern) -> (r: Option<bool>)
    ensures
        r == when_matches(*v, *p),
{
    match p {
        WhenPattern::Catchall => Some(true),
        WhenPattern::Literal(AstValue::Unknown) => Some(
            match v {
                Value::Unknown(_) => true,
                _ => false,
            },
        ),
        WhenPattern::Literal(AstValue::Bool(b)) => Some(
            match v {
                Value::Bool(x) => *x == *b,
                _ => false,
            },
        ),
        WhenPattern::Literal(AstValue::Num(n)) => Some(
            match v {
                Value::Num(x) => *x == *n,
                _ => false,
            },
        ),
        WhenPattern::Literal(_) => Some(false),
        WhenPattern::EnumVariant(en, vn) => Some(
            match v {
                Value::EnumVariant(e, x) => crate::frontend::semantic::str_eq_string(e.as_str(), en)
                    && crate::frontend::semantic::str_eq_string(x.as_str(), vn),
                _ => false,
            },
        ),
        WhenPattern::Range(AstValue::Num(a), AstValue::Num(b), inclusive) => Some(
            match v {
                Value::Num(n) => *a <= *n && (if *inclusive {
                    *n <= *b
                } else {
                    *n < *b
                }),
                _ => false,
            },
        ),
        WhenPattern::Range(_, _, _) => Some(false),
        WhenPattern::Group(_, _) => None,
        WhenPattern::Placeholder => Some(false),
    }
}

fn find_when_arm(v: &Value, arms: &Vec<WhenArm>) -> (r: Option<Option<usize>>)
    ensures
        match r {
            None => first_when_arm(*v, arms@, 0) is None,
            Some(None) => first_when_arm(*v, arms@, 0) == Some(None::<int>),
            Some(Some(k)) => first_when_arm(*v, arms@, 0) == Some(Some(k as int)) && k < arms@.len(),
        },
{
    let mut i: usize = 0;
    while i < arms.len()
        invariant
            i <= arms@.len(),
            first_when_arm(*v, arms@, 0) == first_when_arm(*v, arms@, i as int),
        decreases arms@.len() - i,
    {
        match when_match(v, &arms[i].pattern) {
            None => {
                return None;
            },
            Some(true) => {
                return Some(Some(i));
            },
            Some(false) => {},
        }
        i = i + 1;
    }
    Some(None)
}

impl RunTime {
    pub open spec fn frames(&self) -> Frames {
        frames_of(self.scopes@)
    }

    /// At least one scope is open and the handle registry is consistent.
    pub open spec fn wf(&self) -> bool {
        &&& self.scopes@.len() >= 1
        &&& self.handles.wf()
    }

    /// A run time with one empty scope, no output and no handles.
    pub fn new() -> (r: Self)
        ensures
            r.wf(),
            r.state() == (
                seq![Seq::<(String, VarEntry)>::empty()],
                Seq::<(Value, bool)>::empty(),
                (Seq::<SlotState<Value>>::empty(), Seq::<u32>::empty(), Seq::<u32>::empty()),
            ),
    {
        let mut scopes: Vec<Vec<(String, VarEntry)>> = Vec::new();
        scopes.push(Vec::new());
        let r = RunTime { scopes, output: Vec::new(), handles: HandleRegistry::new() };
        proof {
            assert(r.frames() =~= seq![Seq::<(String, VarEntry)>::empty()]);
            assert(r.handles.region_ids() =~= Seq::<u32>::empty());
            assert(r.output@ =~= Seq::<(Value, bool)>::empty());
        }
        r
    }

    /// Open a scope.
    pub fn push_scope(&mut self)
        ensures
            final(self).frames() == old(self).frames().push(Seq::empty()),
            final(self).output == old(self).output,
            final(self).handles == old(self).handles,
    {
        self.scopes.push(Vec::new());
        proof {
            assert(self.frames() =~= old(self).frames().push(Seq::empty()));
        }
    }

    /// Close the innermost scope.
    pub fn pop_scope(&mut self)
        requires
            old(self).wf(),
        ensures
            final(self).frames() == old(self).frames().drop_last(),
            final(self).output == old(self).output,
            final(self).handles == old(self).handles,
    {
        self.scopes.pop();
        proof {
            assert(self.frames() =~= old(self).frames().drop_last());
        }
    }

    fn find(&self, name: &String) -> (r: Option<(usize, usize)>)
        ensures
            match r {
                Some((i, j)) => find_var(self.frames(), name@) == Some((i as int, j as int)) && i < self.frames().len()
                    && j < self.frames()[i as int].len(),
                None => find_var(self.frames(), name@) is None,
            },
    {
        proof {
            lemma_find_from(self.frames(), name@, self.frames().len() - 1);
        }
        let mut i = self.scopes.len();
        while i > 0
            invariant
                i <= self.scopes@.len(),
                find_var(self.frames(), name@) == find_from(self.frames(), name@, i - 1),
            decreases i,
        {
            proof {
                assert(self.frames()[i - 1] == self.scopes@[i - 1]@);
            }
            match index_in(&self.scopes[i - 1], name) {
                Some(j) => {
                    return Some((i - 1, j));
                },
                None => {},
            }
            i = i - 1;
        }
        None
    }

    /// The value of `name` in the innermost scope declaring it.
    pub fn get_var(&self, name: &String, pos: usize) -> (r: Result<Value, RuntimeError>)
        ensures
            r == get_spec(self.frames(), *name, pos),
    {
        let found = self.find(name);
        proof {
            if let Some((i, j)) = found {
                assert(self.frames()[i as int] == self.scopes@[i as int]@);
            }
        }
        match found {
            Some((i, j)) => match &self.scopes[i][j].1.val {
                Some(v) => Ok(clone_value(v)),
                None => Err(RuntimeError::UninitializedVar { pos, name: name.clone() }),
            },
            None => Err(RuntimeError::UndefinedVar { pos, name: name.clone() }),
        }
    }

    /// Declare `name` in the innermost scope (see [`declare_spec`]).
    pub fn declare(&mut self, name: String, ty: Option<Type>, pos: usize) -> (r: Result<(), RuntimeError>)
        requires
            old(self).wf(),
        ensures
            final(self).wf(),
            final(self).output == old(self).output,
            final(self).handles == old(self).handles,
            match declare_spec(old(self).frames(), name, ty, pos) {
                Ok(fs) => r is Ok && final(self).frames() == fs,
                Err(e) => r == Err::<(), RuntimeError>(e) && final(self).frames() == old(self).frames(),
            },
    {
        let last = self.scopes.len() - 1;
        if index_in(&self.scopes[last], &name).is_some() {
            return Err(RuntimeError::AlreadyDeclared { pos, name });
        }
        let mut frame = self.scopes.pop().unwrap();
        frame.push((name, VarEntry { ty, val: None }));
        self.scopes.push(frame);
        proof {
            assert(self.frames() =~= old(self).frames().update(
                last as int,
                old(self).frames()[last as int].push((name, VarEntry { ty, val: None })),
            ));
        }
        Ok(())
    }

    /// Declare `name` in the innermost scope with a type and a value (see
    /// [`set_typed_spec`]).
    pub fn set_var_typed(&mut self, name: String, ty: Type, value: Value, pos: usize) -> (r: Result<(), RuntimeError>)
        requires
            old(self).wf(),
        ensures
            final(self).wf(),
            final(self).output == old(self).output,
            final(self).handles == old(self).handles,
            match set_typed_spec(old(self).frames(), name, ty, value, pos) {
                Ok(fs) => r is Ok && final(self).frames() == fs,
                Err(e) => r == Err::<(), RuntimeError>(e) && final(self).frames() == old(self).frames(),
            },
    {
        if !matches_type(&value, &ty) {
            let got = type_of(&value);
            return Err(RuntimeError::TypeMismatch { pos, expected: ty, got });
        }
        let last = self.scopes.len() - 1;
        if index_in(&self.scopes[last], &name).is_some() {
            return Err(RuntimeError::AlreadyDeclared { pos, name });
        }
        let ghost entry = (name, VarEntry { ty: Some(ty), val: Some(value) });
        let mut frame = self.scopes.pop().unwrap();
        frame.push((name, VarEntry { ty: Some(ty), val: Some(value) }));
        self.scopes.push(frame);
        proof {
            assert(self.frames() =~= old(self).frames().update(
                last as int,
                old(self).frames()[last as int].push(entry),
            ));
        }
        Ok(())
    }

    /// Assign to the innermost variable named `name` (see [`set_spec`]).
    pub fn set_var(&mut self, name: String, value: Value, pos: usize) -> (r: Result<(), RuntimeError>)
        requires
            old(self).wf(),
        ensures
            final(self).wf(),
            final(self).output == old(self).output,
            final(self).handles == old(self).handles,
            match set_spec(old(self).frames(), name, value, pos) {
                Ok(fs) => r is Ok && final(self).frames() == fs,
                Err(e) => r == Err::<(), RuntimeError>(e) && final(self).frames() == old(self).frames(),
            },
    {
        let found = self.find(&name);
        proof {
            if let Some((i, j)) = found {
                assert(self.frames()[i as int] == self.scopes@[i as int]@);
            }
        }
        match found {
            None => Err(RuntimeError::UndefinedVar { pos, name }),
            Some((i, j)) => {
                let ty = match &self.scopes[i][j].1.ty {
                    Some(t) => t.clone(),
                    None => type_of(&value),
                };
                if !matches_type(&value, &ty) {
                    let got = type_of(&value);
                    return Err(RuntimeError::TypeMismatch { pos, expected: ty, got });
                }
                let key = self.scopes[i][j].0.clone();
                let ghost entry = (key, VarEntry { ty: Some(ty), val: Some(value) });
                let mut frame: Vec<(String, VarEntry)> = Vec::new();
                self.scopes.set_and_swap(i, &mut frame);
                frame.set(j, (key, VarEntry { ty: Some(ty), val: Some(value) }));
                self.scopes.set_and_swap(i, &mut frame);
                proof {
                    assert(self.frames() =~= old(self).frames().update(
                        i as int,
                        old(self).frames()[i as int].update(j as int, entry),
                    ));
                }
                Ok(())
            },
        }
    }

    /// Evaluate an expression (see [`eval_spec`]) among the program's
    /// statements `prog`, each call using one unit of `fuel`. The scope
    /// stack is left as deep as it was.
    pub fn eval_expr(&mut self, prog: &Vec<Stmt>, e: &Expr, fuel: u64) -> (r: Result<Value, Stop>)
        requires
            old(self).wf(),
        ensures
            final(self).wf(),
            final(self).frames().len() == old(self).frames().len(),
            (final(self).state(), r) == eval_spec(prog@, old(self).state(), *e, fuel as nat),
        decreases fuel, 0nat, e, 0nat,
    {
        match e {
            Expr::Val(v) => Ok(literal(v)),
            Expr::Ident(name, pos) => match self.get_var(name, *pos) {
                Ok(v) => Ok(v),
                Err(x) => Err(Stop::Error(x)),
            },
            Expr::Unary(op, x, pos) => match self.eval_expr(prog, x, fuel) {
                Ok(v) => match unary(*op, v, *pos) {
                    Ok(r) => Ok(r),
                    Err(x) => Err(Stop::Error(x)),
                },
                Err(s) => Err(s),
            },
            Expr::Call(name, args, pos) => {
                proof {
                    reveal_strlit("is_known");
                }
                if crate::frontend::semantic::str_eq_string("is_known", name) {
                    if args.len() > 0 {
                        match &args[0] {
                            CallArg::Expr(x) => {
                                proof {
                                    assert(decreases_to!(*e => args@[0]));
                                }
                                let v = self.eval_expr(prog, x, fuel)?;
                                let known = match &v {
                                    Value::Unknown(_) => false,
                                    Value::TBool(t) => *t != 2,
                                    _ => true,
                                };
                                return Ok(Value::Bool(known));
                            },
                            _ => {},
                        }
                    }
                    return Err(Stop::Error(RuntimeError::UndefinedVar { pos: *pos, name: name.clone() }));
                }
                match find_func_index(prog, name) {
                    None => Err(Stop::Error(RuntimeError::UndefinedVar { pos: *pos, name: name.clone() })),
                    Some(k) => match &prog[k] {
                        Stmt::FuncDef { params, body, ret_expr, .. } => {
                            proof {
                                assert(decreases_to!(*e => e->Call_1));
                                assert(decreases_to!(*e => args@));
                            }
                            self.call_function(prog, params, body, ret_expr, args, *pos, fuel)
                        },
                        _ => Err(Stop::Unsupported),
                    },
                }
            },
            Expr::Bin(l, op, pos, r) => match self.eval_expr(prog, l, fuel) {
                Ok(a) => match self.eval_expr(prog, r, fuel) {
                    Ok(b) => match apply_op(a, *op, *pos, b) {
                        Ok(OpOutcome::Done(v)) => Ok(v),
                        Ok(OpOutcome::FloatArith { op, left, right }) => Err(Stop::Float { op, left, right, pos: *pos }),
                        Err(x) => Err(Stop::Error(x)),
                    },
                    Err(s) => Err(s),
                },
                Err(s) => Err(s),
            },
            Expr::HandleNew(x, _) => {
                let v = self.eval_expr(prog, x, fuel)?;
                if !self.handles.has_room() {
                    return Err(Stop::HandleLimit);
                }
                let ghost before = self.handles;
                let h = self.handles.insert(v);
                proof {
                    let (h2, hh) = hm_insert(handles_of(before), v);
                    assert(hh == h);
                    assert(handles_of(self.handles) =~~= h2);
                }
                Ok(Value::Handle(h))
            },
            Expr::HandleVal(name, pos) => {
                let val = match self.get_var(name, *pos) {
                    Ok(v) => v,
                    Err(x) => {
                        return Err(Stop::Error(x));
                    },
                };
                match val {
                    Value::Handle(h) => match self.handles.get(h) {
                        Some(v) => Ok(clone_value(v)),
                        None => Err(Stop::Error(RuntimeError::StaleHandle { pos: *pos })),
                    },
                    _ => Err(Stop::Error(RuntimeError::StaleHandle { pos: *pos })),
                }
            },
            Expr::HandleDrop(name, pos) => {
                let val = match self.get_var(name, *pos) {
                    Ok(v) => v,
                    Err(x) => {
                        return Err(Stop::Error(x));
                    },
                };
                match val {
                    Value::Handle(h) => {
                        if h.gen == u32::MAX && self.handles.get(h).is_some() {
                            return Err(Stop::HandleLimit);
                        }
                        let ghost before = self.handles;
                        let _removed = self.handles.remove(h);
                        proof {
                            if before.lookup(h) is Some {
                                assert(handles_of(self.handles) =~~= hm_remove(handles_of(before), h));
                            }
                        }
                        Ok(Value::Num(0))
                    },
                    _ => Err(Stop::Error(RuntimeError::StaleHandle { pos: *pos })),
                }
            },
            _ => Err(Stop::Unsupported),
        }
    }

    /// Close a call's scope, returning each `.copy` parameter's value to the
    /// caller's variable in scope `outer` (see [`write_back`]).
    pub fn pop_function_scope(&mut self, bound: &Vec<Bound>, outer: usize)
        requires
            old(self).wf(),
            old(self).scopes@.len() >= 2,
        ensures
            final(self).wf(),
            final(self).output == old(self).output,
            final(self).handles == old(self).handles,
            final(self).frames() == write_back(
                old(self).frames().drop_last(),
                old(self).frames().last(),
                bound@,
                outer as int,
                0,
            ),
    {
        proof {
            lemma_depth(self);
        }
        let ghost fs0 = self.frames();
        let top = self.scopes.pop().unwrap();
        proof {
            lemma_depth(self);
            assert(self.frames() =~= fs0.drop_last());
            assert(top@ == fs0.last());
        }
        let mut k: usize = 0;
        while k < bound.len()
            invariant
                k <= bound@.len(),
                self.scopes@.len() >= 1,
                self.handles.wf(),
                self.output == old(self).output,
                self.handles == old(self).handles,
                top@ == fs0.last(),
                write_back(fs0.drop_last(), fs0.last(), bound@, outer as int, 0) == write_back(
                    self.frames(),
                    top@,
                    bound@,
                    outer as int,
                    k as int,
                ),
            decreases bound@.len() - k,
        {
            proof {
                lemma_depth(self);
            }
            match &bound[k].2 {
                Some(o) => match index_in(&top, &bound[k].0) {
                    Some(j) => match &top[j].1.val {
                        Some(v) => if outer < self.scopes.len() {
                            match index_in(&self.scopes[outer], o) {
                                Some(jj) => {
                                    let ghost before = self.frames();
                                    let key = self.scopes[outer][jj].0.clone();
                                    let ty = match &self.scopes[outer][jj].1.ty {
                                        Some(t) => Some(t.clone()),
                                        None => None,
                                    };
                                    let val = clone_value(v);
                                    let ghost entry = (key, VarEntry { ty, val: Some(val) });
                                    let mut frame: Vec<(String, VarEntry)> = Vec::new();
                                    self.scopes.set_and_swap(outer, &mut frame);
                                    frame.set(jj, (key, VarEntry { ty, val: Some(val) }));
                                    self.scopes.set_and_swap(outer, &mut frame);
                                    proof {
                                        lemma_depth(self);
                                        assert(self.frames() =~= before.update(
                                            outer as int,
                                            before[outer as int].update(jj as int, entry),
                                        ));
                                    }
                                },
                                None => {},
                            }
                        },
                        None => {},
                    },
                    None => {},
                },
                None => {},
            }
            k = k + 1;
        }
    }

    /// Call a function (see [`call_spec`]): its parameters, body and result
    /// expression, with the caller's arguments.
    #[verifier::rlimit(60)]
    pub fn call_function(
        &mut self,
        prog: &Vec<Stmt>,
        params: &Vec<ParamKind>,
        body: &Vec<Stmt>,
        ret_expr: &Option<Expr>,
        args: &Vec<CallArg>,
        pos: usize,
        fuel: u64,
    ) -> (r: Result<Value, Stop>)
        requires
            old(self).wf(),
        ensures
            final(self).wf(),
            final(self).frames().len() == old(self).frames().len(),
            (final(self).state(), r) == call_spec(
                prog@,
                old(self).state(),
                params@,
                body@,
                *ret_expr,
                args@,
                pos,
                fuel as nat,
            ),
        decreases fuel, 0nat, args@, args@.len() + 1,
    {
        let ghost st0 = self.state();
        let mut bound: Vec<Bound> = Vec::new();
        let mut i: usize = 0;
        while i < params.len() && i < args.len()
            invariant
                i <= params@.len(),
                self.wf(),
                st0 == old(self).state(),
                self.frames().len() == st0.0.len(),
                resolve_args(prog@, st0, params@, args@, 0, Seq::empty(), pos, fuel as nat) == resolve_args(
                    prog@,
                    self.state(),
                    params@,
                    args@,
                    i as int,
                    bound@,
                    pos,
                    fuel as nat,
                ),
            decreases params@.len() - i,
        {
            match (&params[i], &args[i]) {
                (ParamKind::Typed(p, _), CallArg::Expr(e)) => {
                    proof {
                        assert(decreases_to!(args@ => args@[i as int]));
                        assert(decreases_to!(args@[i as int] => args@[i as int]->Expr_0));
                    }
                    match self.eval_expr(prog, e, fuel) {
                        Ok(v) => bound.push((p.clone(), v, None)),
                        Err(x) => {
                            return Err(x);
                        },
                    }
                },
                (ParamKind::Copy(p), CallArg::Copy(o)) => match self.get_var(o, pos) {
                    Ok(v) => bound.push((p.clone(), v, Some(o.clone()))),
                    Err(x) => {
                        return Err(Stop::Error(x));
                    },
                },
                (ParamKind::CopyFree(p), CallArg::CopyFree(o)) => match self.get_var(o, pos) {
                    Ok(v) => bound.push((p.clone(), v, None)),
                    Err(x) => {
                        return Err(Stop::Error(x));
                    },
                },
                (ParamKind::CopyInto(_, _), CallArg::CopyInto(_)) => {
                    return Err(Stop::Unsupported);
                },
                _ => {
                    return Err(Stop::Error(RuntimeError::BadAssignTarget { pos }));
                },
            }
            i = i + 1;
        }
        let ghost s1 = self.state();
        proof {
            lemma_depth(self);
            assert(resolve_args(prog@, s1, params@, args@, i as int, bound@, pos, fuel as nat) == (
                s1,
                Ok::<Seq<Bound>, Stop>(bound@),
            ));
        }
        if fuel == 0 {
            return Err(Stop::OutOfFuel);
        }
        let outer = self.scopes.len() - 1;
        self.push_scope();
        proof {
            lemma_depth(self);
            assert(self.frames().drop_last() =~= s1.0);
        }
        let mut k: usize = 0;
        while k < bound.len()
            invariant
                k <= bound@.len(),
                self.wf(),
                self.scopes@.len() == s1.0.len() + 1,
                s1.0.len() >= 1,
                s1.0.len() == st0.0.len(),
                st0 == old(self).state(),
                self.output@ == s1.1,
                handles_of(self.handles) == s1.2,
                self.frames().drop_last() == s1.0,
                outer == s1.0.len() - 1,
                fuel > 0,
                resolve_args(prog@, st0, params@, args@, 0, Seq::empty(), pos, fuel as nat) == (
                    s1,
                    Ok::<Seq<Bound>, Stop>(bound@),
                ),
                bind_params(s1.0.push(Seq::empty()), bound@, 0, pos) == bind_params(
                    self.frames(),
                    bound@,
                    k as int,
                    pos,
                ),
            decreases bound@.len() - k,
        {
            let t = type_of(&bound[k].1);
            let v = clone_value(&bound[k].1);
            proof {
                lemma_depth(self);
            }
            let ghost fb = self.frames();
            match self.set_var_typed(bound[k].0.clone(), t, v, pos) {
                Ok(()) => {},
                Err(x) => {
                    proof {
                        assert(bind_params(fb, bound@, k as int, pos) == Err::<Frames, RuntimeError>(x));
                        assert(self.frames() == fb);
                    }
                    self.pop_scope();
                    proof {
                        lemma_depth(self);
                        assert(self.frames() == s1.0);
                        assert(self.state() == s1);
                    }
                    return Err(Stop::Error(x));
                },
            }
            proof {
                lemma_depth(self);
                assert(self.frames().drop_last() =~= s1.0);
            }
            k = k + 1;
        }
        let ghost fs1 = self.frames();
        proof {
            assert(self.state() == (fs1, s1.1, s1.2));
        }
        let r = self.run_stmts(prog, body, fuel - 1);
        let ghost st2 = self.state();
        let rv = match r {
            Ok(()) => match ret_expr {
                Some(e) => self.eval_expr(prog, e, fuel - 1),
                None => Ok(Value::Num(0)),
            },
            Err(Stop::Error(RuntimeError::EarlyReturn(v))) => Ok(v),
            Err(x) => Err(x),
        };
        proof {
            lemma_depth(self);
        }
        let ghost fp = self.frames();
        self.pop_function_scope(&bound, outer);
        proof {
            lemma_write_back_len(fp.drop_last(), fp.last(), bound@, outer as int, 0);
        }
        rv
    }

    pub open spec fn state(&self) -> State {
        (self.frames(), self.output@, handles_of(self.handles))
    }

    /// Run one statement (see [`exec_spec`]) among the program's statements
    /// `prog`. The scope stack is left as deep as it was, whatever happens.
    pub fn run_stmt(&mut self, prog: &Vec<Stmt>, s: &Stmt, fuel: u64) -> (r: Result<(), Stop>)
        requires
            old(self).wf(),
        ensures
            final(self).wf(),
            final(self).frames().len() == old(self).frames().len(),
            (final(self).state(), r) == exec_spec(prog@, old(self).state(), *s, fuel as nat),
        decreases fuel, 1nat, s, 1nat,
    {
        proof {
            lemma_depth(self);
            match s {
                Stmt::Assign { target: Expr::Ident(name, _), .. } => {},
                _ => {},
            }
        }
        match s {
            Stmt::Decl { name, ty, pos } => match self.declare(name.clone(), clone_opt_type(ty), *pos) {
                Ok(()) => {
                    proof {
                        lemma_depth(self);
                    }
                    Ok(())
                },
                Err(x) => Err(Stop::Error(x)),
            },
            Stmt::Assign { target, expr, pos_eq } => {
                let v = self.eval_expr(prog, expr, fuel)?;
                match target {
                    Expr::Ident(name, _) => {
                        proof {
                            lemma_find_from(self.frames(), name@, self.frames().len() - 1);
                        }
                        match self.set_var(name.clone(), v, *pos_eq) {
                            Ok(()) => Ok(()),
                            Err(x) => Err(Stop::Error(x)),
                        }
                    },
                    Expr::DotAccess(_, _) => Err(Stop::Unsupported),
                    _ => Err(Stop::Error(RuntimeError::BadAssignTarget { pos: *pos_eq })),
                }
            },
            Stmt::TypedAssign { name, ty, expr, pos_type } => {
                let v = self.eval_expr(prog, expr, fuel)?;
                let is_bool = match ty {
                    Type::Bool => true,
                    _ => false,
                };
                let unknown = match &v {
                    Value::Unknown(_) => true,
                    _ => false,
                };
                let v2 = if is_bool && unknown {
                    Value::TBool(2)
                } else {
                    v
                };
                match self.set_var_typed(name.clone(), ty.clone(), v2, *pos_type) {
                    Ok(()) => Ok(()),
                    Err(x) => Err(Stop::Error(x)),
                }
            },
            Stmt::CompoundAssign { name, op, operand, pos } => {
                let cur = match self.get_var(name, *pos) {
                    Ok(c) => c,
                    Err(x) => {
                        return Err(Stop::Error(x));
                    },
                };
                let rhs = self.eval_expr(prog, operand, fuel)?;
                proof {
                    lemma_find_from(self.frames(), name@, self.frames().len() - 1);
                }
                match apply_op(cur, *op, *pos, rhs) {
                    Ok(OpOutcome::Done(v)) => match self.set_var(name.clone(), v, *pos) {
                        Ok(()) => Ok(()),
                        Err(x) => Err(Stop::Error(x)),
                    },
                    Ok(OpOutcome::FloatArith { op, left, right }) => Err(Stop::Float { op, left, right, pos: *pos }),
                    Err(x) => Err(Stop::Error(x)),
                }
            },
            Stmt::Print { expr, .. } => {
                let v = self.eval_expr(prog, expr, fuel)?;
                self.output.push((v, true));
                Ok(())
            },
            Stmt::PrintInline { expr, .. } => {
                let v = self.eval_expr(prog, expr, fuel)?;
                self.output.push((v, false));
                Ok(())
            },
            Stmt::ExprStmt { expr, .. } => {
                let _v = self.eval_expr(prog, expr, fuel)?;
                Ok(())
            },
            Stmt::Return { expr, .. } => match expr {
                Some(e) => {
                    let v = self.eval_expr(prog, e, fuel)?;
                    Err(Stop::Error(RuntimeError::EarlyReturn(v)))
                },
                None => Err(Stop::Error(RuntimeError::EarlyReturn(Value::Num(0)))),
            },
            Stmt::FuncDef { .. } => Ok(()),
            Stmt::Block { stmts, _pos } => {
                let ghost st0 = self.state();
                self.push_scope();
                proof {
                    lemma_depth(self);
                    assert(self.state() == (st0.0.push(Seq::empty()), st0.1, st0.2));
                }
                let mut k: usize = 0;
                while k < stmts.len()
                    invariant
                        k <= stmts@.len(),
                        *s == (Stmt::Block { stmts: *stmts, _pos: *_pos }),
                        st0 == old(self).state(),
                        self.frames().len() == st0.0.len() + 1,
                        self.scopes@.len() == st0.0.len() + 1,
                        self.handles.wf(),
                        st0.0.len() >= 1,
                        exec_block(prog@, (st0.0.push(Seq::empty()), st0.1, st0.2), stmts@, 0, fuel as nat)
                            == exec_block(prog@, self.state(), stmts@, k as int, fuel as nat),
                    decreases stmts@.len() - k,
                {
                    proof {
                        lemma_block_decreases(*s, *stmts, *_pos, k as int);
                    }
                    match self.run_stmt(prog, &stmts[k], fuel) {
                        Ok(()) => {},
                        Err(x) => {
                            proof {
                                lemma_depth(self);
                            }
                            self.pop_scope();
                            proof {
                                lemma_depth(self);
                            }
                            return Err(x);
                        },
                    }
                    proof {
                        lemma_depth(self);
                    }
                    k = k + 1;
                }
                self.pop_scope();
                proof {
                    lemma_depth(self);
                }
                Ok(())
            },
            Stmt::While { cond, body, pos } => {
                let ghost st0 = self.state();
                let mut f: u64 = fuel;
                loop
                    invariant
                        self.wf(),
                        self.frames().len() == st0.0.len(),
                        st0 == old(self).state(),
                        f <= fuel,
                        *s == (Stmt::While { cond: *cond, body: *body, pos: *pos }),
                        exec_spec(prog@, st0, *s, fuel as nat) == exec_spec(prog@, self.state(), *s, f as nat),
                    decreases f,
                {
                    proof {
                        assert(decreases_to!(*s => s->While_body));
                    }
                    let cv = match self.eval_expr(prog, cond, f) {
                        Ok(v) => v,
                        Err(x) => {
                            return Err(x);
                        },
                    };
                    let go = match cv {
                        Value::Bool(b) => b,
                        _ => false,
                    };
                    if !go {
                        return Ok(());
                    }
                    if f == 0 {
                        return Err(Stop::OutOfFuel);
                    }
                    let ghost before = self.state();
                    self.push_scope();
                    proof {
                        lemma_depth(self);
                        assert(self.state() == (before.0.push(Seq::empty()), before.1, before.2));
                    }
                    let r = self.run_stmts(prog, body, f);
                    self.pop_scope();
                    proof {
                        lemma_depth(self);
                    }
                    match r {
                        Ok(()) => {},
                        Err(Stop::Error(RuntimeError::ContinueSignal)) => {},
                        Err(Stop::Error(RuntimeError::BreakSignal)) => {
                            return Ok(());
                        },
                        Err(x) => {
                            return Err(x);
                        },
                    }
                    f = f - 1;
                }
            },
            Stmt::Loop { body, pos } => {
                let ghost st0 = self.state();
                let mut f: u64 = fuel;
                loop
                    invariant
                        self.wf(),
                        self.frames().len() == st0.0.len(),
                        st0 == old(self).state(),
                        f <= fuel,
                        *s == (Stmt::Loop { body: *body, pos: *pos }),
                        exec_spec(prog@, st0, *s, fuel as nat) == exec_spec(prog@, self.state(), *s, f as nat),
                    decreases f,
                {
                    proof {
                        assert(decreases_to!(*s => s->Loop_body));
                    }
                    if f == 0 {
                        return Err(Stop::OutOfFuel);
                    }
                    let ghost before = self.state();
                    self.push_scope();
                    proof {
                        lemma_depth(self);
                        assert(self.state() == (before.0.push(Seq::empty()), before.1, before.2));
                    }
                    let r = self.run_stmts(prog, body, f);
                    self.pop_scope();
                    proof {
                        lemma_depth(self);
                    }
                    match r {
                        Ok(()) => {},
                        Err(Stop::Error(RuntimeError::ContinueSignal)) => {},
                        Err(Stop::Error(RuntimeError::BreakSignal)) => {
                            return Ok(());
                        },
                        Err(x) => {
                            return Err(x);
                        },
                    }
                    f = f - 1;
                }
            },
            Stmt::For { var, start, end, inclusive, body, pos } => {
                let a = match self.eval_expr(prog, start, fuel) {
                    Ok(Value::Num(n)) => n,
                    Ok(_) => {
                        return Err(Stop::Error(RuntimeError::BadAssignTarget { pos: 0 }));
                    },
                    Err(x) => {
                        return Err(x);
                    },
                };
                let b = match self.eval_expr(prog, end, fuel) {
                    Ok(Value::Num(n)) => n,
                    Ok(_) => {
                        return Err(Stop::Error(RuntimeError::BadAssignTarget { pos: 0 }));
                    },
                    Err(x) => {
                        return Err(x);
                    },
                };
                let ghost hi: int = if *inclusive { b + 1 } else { b as int };
                let ghost st0 = self.state();
                let mut i: u128 = a;
                let mut f: u64 = fuel;
                loop
                    invariant
                        self.wf(),
                        self.frames().len() == st0.0.len(),
                        st0.0.len() == old(self).frames().len(),
                        f <= fuel,
                        hi == (if *inclusive { b + 1 } else { b as int }),
                        *s == (Stmt::For {
                            var: *var,
                            start: *start,
                            end: *end,
                            inclusive: *inclusive,
                            body: *body,
                            pos: *pos,
                        }),
                        exec_spec(prog@, old(self).state(), *s, fuel as nat) == exec_for(
                            prog@,
                            self.state(),
                            *s,
                            i as int,
                            hi,
                            f as nat,
                        ),
                    decreases f,
                {
                    proof {
                        assert(decreases_to!(*s => s->For_body));
                    }
                    let past = if *inclusive {
                        i > b
                    } else {
                        i >= b
                    };
                    if past {
                        return Ok(());
                    }
                    if f == 0 {
                        return Err(Stop::OutOfFuel);
                    }
                    let ghost before = self.state();
                    let ghost entry = (*var, VarEntry { ty: Some(Type::T128), val: Some(Value::Num(i)) });
                    let mut frame: Vec<(String, VarEntry)> = Vec::new();
                    frame.push((var.clone(), VarEntry { ty: Some(Type::T128), val: Some(Value::Num(i)) }));
                    self.scopes.push(frame);
                    proof {
                        lemma_depth(self);
                        assert(self.frames() =~= before.0.push(seq![entry]));
                    }
                    let r = self.run_stmts(prog, body, f);
                    self.pop_scope();
                    proof {
                        lemma_depth(self);
                    }
                    match r {
                        Ok(()) => {},
                        Err(Stop::Error(RuntimeError::ContinueSignal)) => {},
                        Err(Stop::Error(RuntimeError::BreakSignal)) => {
                            return Ok(());
                        },
                        Err(x) => {
                            return Err(x);
                        },
                    }
                    if i == u128::MAX {
                        proof {
                            assert(exec_for(prog@, self.state(), *s, i as int + 1, hi, (f - 1) as nat) == (
                                self.state(),
                                Ok::<(), Stop>(()),
                            ));
                        }
                        return Ok(());
                    }
                    i = i + 1;
                    f = f - 1;
                }
            },
            Stmt::When { expr, arms, pos } => {
                let v = self.eval_expr(prog, expr, fuel)?;
                match find_when_arm(&v, arms) {
                    None => Err(Stop::Unsupported),
                    Some(None) => Ok(()),
                    Some(Some(k)) => match &arms[k].body {
                        WhenBody::Stmts(ss) => {
                            let ghost before = self.state();
                            self.push_scope();
                            proof {
                                lemma_depth(self);
                                assert(self.state() == (before.0.push(Seq::empty()), before.1, before.2));
                                assert(decreases_to!(*s => s->When_arms));
                                assert(decreases_to!(arms@ => arms@[k as int]));
                                assert(decreases_to!(arms@[k as int] => arms@[k as int].body));
                                assert(decreases_to!(arms@[k as int].body => arms@[k as int].body->Stmts_0));
                            }
                            let r = self.run_stmts(prog, ss, fuel);
                            self.pop_scope();
                            proof {
                                lemma_depth(self);
                            }
                            r
                        },
                        WhenBody::SuperGroup(_) => Ok(()),
                    },
                }
            },
            Stmt::Break { .. } => Err(Stop::Error(RuntimeError::BreakSignal)),
            Stmt::Continue { .. } => Err(Stop::Error(RuntimeError::ContinueSignal)),
            Stmt::EnumDef { .. } => Ok(()),
        }
    }

    /// Run statements in order in the current scope, stopping at the first
    /// stop (see [`exec_block`]).
    pub fn run_stmts(&mut self, prog: &Vec<Stmt>, ss: &Vec<Stmt>, fuel: u64) -> (r: Result<(), Stop>)
        requires
            old(self).wf(),
        ensures
            final(self).wf(),
            final(self).frames().len() == old(self).frames().len(),
            (final(self).state(), r) == exec_block(prog@, old(self).state(), ss@, 0, fuel as nat),
        decreases fuel, 1nat, ss@, 0nat,
    {
        let ghost st0 = self.state();
        let mut k: usize = 0;
        while k < ss.len()
            invariant
                k <= ss@.len(),
                self.wf(),
                self.frames().len() == st0.0.len(),
                st0 == old(self).state(),
                exec_block(prog@, st0, ss@, 0, fuel as nat) == exec_block(prog@, self.state(), ss@, k as int, fuel as nat),
            decreases ss@.len() - k,
        {
            proof {
                assert(decreases_to!(ss@ => ss@[k as int]));
            }
            match self.run_stmt(prog, &ss[k], fuel) {
                Ok(()) => {},
                Err(x) => {
                    return Err(x);
                },
            }
            k = k + 1;
        }
        Ok(())
    }

    /// Run a program's statements in order in the current scope, stopping
    /// at the first stop; calls find functions among the program's own
    /// statements, and `fuel` bounds how deep calls may nest.
    pub fn run_program(&mut self, p: &Program, fuel: u64) -> (r: Result<(), Stop>)
        requires
            old(self).wf(),
        ensures
            final(self).wf(),
            (final(self).state(), r) == exec_block(p.stmts@, old(self).state(), p.stmts@, 0, fuel as nat),
    {
        self.run_stmts(&p.stmts, &p.stmts, fuel)
    }
}

/// The last definition of a function named `name` among the program's
/// statements (see [`find_func`]).
pub fn find_func_index(prog: &Vec<Stmt>, name: &String) -> (r: Option<usize>)
    ensures
        match r {
            Some(k) => find_func(prog@, name@, prog@.len() as int) == Some(k as int) && k < prog@.len(),
            None => find_func(prog@, name@, prog@.len() as int) is None,
        },
{
    let mut i = prog.len();
    while i > 0
        invariant
            i <= prog@.len(),
            find_func(prog@, name@, prog@.len() as int) == find_func(prog@, name@, i as int),
        decreases i,
    {
        match &prog[i - 1] {
            Stmt::FuncDef { name: n, .. } => {
                if crate::frontend::semantic::str_eq_string(n.as_str(), name) {
                    return Some(i - 1);
                }
            },
            _ => {},
        }
        i = i - 1;
    }
    None
}

proof fn lemma_write_back_len(fs: Frames, top: Seq<(String, VarEntry)>, bs: Seq<Bound>, outer: int, k: int)
    ensures
        write_back(fs, top, bs, outer, k).len() == fs.len(),
    decreases bs.len() - k,
{
    if 0 <= k < bs.len() {
        lemma_write_back_len(write_back_one(fs, top, bs[k], outer), top, bs, outer, k + 1);
    }
}

/// Closing a call's scope returns values only into the caller's scope:
/// every other scope is left as it was, the caller's scope keeps its
/// variables, their order and their types (only values change), and when
/// no parameter was passed `.copy` nothing changes at all.
pub proof fn law_write_back_only_caller(fs: Frames, top: Seq<(String, VarEntry)>, bs: Seq<Bound>, outer: int)
    ensures
        write_back(fs, top, bs, outer, 0).len() == fs.len(),
        forall|i: int| 0 <= i < fs.len() && i != outer ==> #[trigger] write_back(fs, top, bs, outer, 0)[i] == fs[i],
        0 <= outer < fs.len() ==> write_back(fs, top, bs, outer, 0)[outer].len() == fs[outer].len(),
        0 <= outer < fs.len() ==> forall|j: int|
            0 <= j < fs[outer].len() ==> (#[trigger] write_back(fs, top, bs, outer, 0)[outer][j]).0 == fs[outer][j].0
                && write_back(fs, top, bs, outer, 0)[outer][j].1.ty == fs[outer][j].1.ty,
        (forall|k: int| 0 <= k < bs.len() ==> (#[trigger] bs[k]).2 is None) ==> write_back(fs, top, bs, outer, 0) == fs,
{
    lemma_write_back_shape(fs, top, bs, outer, 0);
}

proof fn lemma_write_back_shape(fs: Frames, top: Seq<(String, VarEntry)>, bs: Seq<Bound>, outer: int, k: int)
    requires
        0 <= k,
    ensures
        write_back(fs, top, bs, outer, k).len() == fs.len(),
        forall|i: int| 0 <= i < fs.len() && i != outer ==> #[trigger] write_back(fs, top, bs, outer, k)[i] == fs[i],
        0 <= outer < fs.len() ==> write_back(fs, top, bs, outer, k)[outer].len() == fs[outer].len(),
        0 <= outer < fs.len() ==> forall|j: int|
            0 <= j < fs[outer].len() ==> (#[trigger] write_back(fs, top, bs, outer, k)[outer][j]).0 == fs[outer][j].0
                && write_back(fs, top, bs, outer, k)[outer][j].1.ty == fs[outer][j].1.ty,
        (forall|m: int| k <= m < bs.len() ==> (#[trigger] bs[m]).2 is None) ==> write_back(fs, top, bs, outer, k) == fs,
    decreases bs.len() - k,
{
    if k < bs.len() {
        let fs2 = write_back_one(fs, top, bs[k], outer);
        if let Some(o) = bs[k].2 {
            if let Some(j) = index_from(top, bs[k].0@, 0) {
                lemma_index_from(top, bs[k].0@, 0);
                if 0 <= outer < fs.len() {
                    lemma_index_from(fs[outer], o@, 0);
                }
            }
        }
        assert(fs2.len() == fs.len());
        assert(forall|i: int| 0 <= i < fs.len() && i != outer ==> fs2[i] == fs[i]);
        lemma_write_back_shape(fs2, top, bs, outer, k + 1);
    }
}

/// Stale-handle detection through the interpreter: once a live handle held
/// by a variable has been dropped, reading through it (or any copy of it)
/// is a stale-handle error, and dropping it again changes nothing.
pub proof fn law_dropped_handle_is_stale(prog: Seq<Stmt>, st: State, name: String, h: Handle, p1: usize, p2: usize, fuel: nat)
    requires
        get_spec(st.0, name, p1) == Ok::<Value, RuntimeError>(Value::Handle(h)),
        hm_lookup(st.2, h) is Some,
        h.gen < u32::MAX,
    ensures
        ({
            let (s1, r1) = eval_spec(prog, st, Expr::HandleDrop(name, p1), fuel);
            &&& r1 == Ok::<Value, Stop>(Value::Num(0))
            &&& s1.0 == st.0
            &&& hm_lookup(s1.2, h) is None
            &&& eval_spec(prog, s1, Expr::HandleVal(name, p2), fuel).1 == Err::<Value, Stop>(
                Stop::Error(RuntimeError::StaleHandle { pos: p2 }),
            )
            &&& eval_spec(prog, s1, Expr::HandleDrop(name, p2), fuel) == (s1, Ok::<Value, Stop>(Value::Num(0)))
        }),
{
    let (s1, r1) = eval_spec(prog, st, Expr::HandleDrop(name, p1), fuel);
    assert(s1.2 == hm_remove(st.2, h));
    assert(s1.2.0[h.slot as int].1 == h.gen + 1);
    assert(get_spec(s1.0, name, p2) == Ok::<Value, RuntimeError>(Value::Handle(h)));
}

/// A `.copy` parameter's value comes back: when a call's scope closes, the
/// caller's variable that a `.copy` parameter was passed from takes the
/// value the parameter holds at that moment.
pub proof fn law_copy_parameter_returns(
    fs: Frames,
    top: Seq<(String, VarEntry)>,
    param: String,
    passed: Value,
    caller_var: String,
    outer: int,
    j: int,
    jj: int,
    v: Value,
)
    requires
        index_from(top, param@, 0) == Some(j),
        top[j].1.val == Some(v),
        0 <= outer < fs.len(),
        index_from(fs[outer], caller_var@, 0) == Some(jj),
    ensures
        write_back(fs, top, seq![(param, passed, Some(caller_var))], outer, 0)[outer][jj].1.val == Some(v),
{
    lemma_index_from(fs[outer], caller_var@, 0);
    let bs = seq![(param, passed, Some(caller_var))];
    assert(write_back(write_back_one(fs, top, bs[0], outer), top, bs, outer, 1) == write_back_one(fs, top, bs[0], outer));
}

/// What a counting loop prints when its body prints its variable: `i`,
/// `i + 1`, ..., `hi - 1`, each followed by a line end.
pub open spec fn printed_range(i: int, hi: int) -> Seq<(Value, bool)> {
    Seq::new((hi - i) as nat, |j: int| (Value::Num((i + j) as u128), true))
}

proof fn lemma_for_prints_counter(
    prog: Seq<Stmt>,
    fs: Frames,
    out: Seq<(Value, bool)>,
    hm: Handles,
    s: Stmt,
    i: int,
    hi: int,
    ppos: usize,
    fuel: nat,
)
    requires
        s is For,
        s->For_body@ == seq![Stmt::Print { expr: Expr::Ident(s->For_var, ppos), pos: ppos }],
        0 <= i <= hi <= u128::MAX + 1,
        fuel >= hi - i,
    ensures
        exec_for(prog, (fs, out, hm), s, i, hi, fuel) == ((fs, out + printed_range(i, hi), hm), Ok::<(), Stop>(())),
    decreases hi - i,
{
    if i >= hi {
        assert(out + printed_range(i, hi) =~= out);
    } else {
        let var = s->For_var;
        let frame = seq![(var, VarEntry { ty: Some(Type::T128), val: Some(Value::Num(i as u128)) })];
        let fs1 = fs.push(frame);
        let pr = Stmt::Print { expr: Expr::Ident(var, ppos), pos: ppos };
        assert(index_from(frame, var@, 0) == Some(0int));
        assert(find_var(fs1, var@) == Some((fs.len() as int, 0int)));
        assert(get_spec(fs1, var, ppos) == Ok::<Value, RuntimeError>(Value::Num(i as u128)));
        let out1 = out.push((Value::Num(i as u128), true));
        assert(eval_spec(prog, (fs1, out, hm), Expr::Ident(var, ppos), fuel) == ((fs1, out, hm), Ok::<Value, Stop>(
            Value::Num(i as u128),
        )));
        assert(exec_spec(prog, (fs1, out, hm), pr, fuel) == ((fs1, out1, hm), Ok::<(), Stop>(())));
        assert(exec_block(prog, (fs1, out1, hm), s->For_body@, 1, fuel) == ((fs1, out1, hm), Ok::<(), Stop>(())));
        assert(exec_block(prog, (fs1, out, hm), s->For_body@, 0, fuel) == ((fs1, out1, hm), Ok::<(), Stop>(())));
        assert(fs1.drop_last() =~= fs);
        lemma_for_prints_counter(prog, fs, out1, hm, s, i + 1, hi, ppos, (fuel - 1) as nat);
        assert(out1 + printed_range(i + 1, hi) =~= out + printed_range(i, hi));
    }
}

/// A counting `for` loop visits each number of its range once, in order:
/// `for k in a..b { print(k); }` prints `a`, `a + 1`, ..., `b - 1`, so
/// `b - a` lines and never `b` itself; the inclusive `for k in a..=b`
/// prints `b` as well. The scopes and handles are as before.
pub proof fn law_for_loop_visits_range(
    prog: Seq<Stmt>,
    st: State,
    var: String,
    a: u128,
    b: u128,
    inclusive: bool,
    body: Vec<Stmt>,
    ppos: usize,
    fpos: usize,
    fuel: nat,
)
    requires
        a <= b,
        body@ == seq![Stmt::Print { expr: Expr::Ident(var, ppos), pos: ppos }],
        fuel > b - a,
    ensures
        ({
            let s = Stmt::For {
                var,
                start: Expr::Val(AstValue::Num(a)),
                end: Expr::Val(AstValue::Num(b)),
                inclusive,
                body,
                pos: fpos,
            };
            let hi: int = if inclusive { b + 1 } else { b as int };
            let (st2, r) = exec_spec(prog, st, s, fuel);
            &&& r == Ok::<(), Stop>(())
            &&& st2 == (st.0, st.1 + printed_range(a as int, hi), st.2)
            &&& st2.1.len() == st.1.len() + hi - a
            &&& inclusive ==> st2.1.last() == (Value::Num(b), true)
            &&& !inclusive ==> forall|k: int| st.1.len() <= k < st2.1.len() ==> st2.1[k] != (Value::Num(b), true)
        }),
{
    let s = Stmt::For {
        var,
        start: Expr::Val(AstValue::Num(a)),
        end: Expr::Val(AstValue::Num(b)),
        inclusive,
        body,
        pos: fpos,
    };
    let hi: int = if inclusive { b + 1 } else { b as int };
    assert(eval_spec(prog, st, Expr::Val(AstValue::Num(a)), fuel) == (st, Ok::<Value, Stop>(Value::Num(a))));
    assert(eval_spec(prog, st, Expr::Val(AstValue::Num(b)), fuel) == (st, Ok::<Value, Stop>(Value::Num(b))));
    assert(exec_spec(prog, st, s, fuel) == exec_for(prog, st, s, a as int, hi, fuel));
    lemma_for_prints_counter(prog, st.0, st.1, st.2, s, a as int, hi, ppos, fuel);
    let printed = st.1 + printed_range(a as int, hi);
    if inclusive {
        assert(printed.last() == printed_range(a as int, hi)[hi - a - 1]);
    } else {
        assert forall|k: int| st.1.len() <= k < printed.len() implies printed[k] != (Value::Num(b), true) by {
            assert(printed[k] == printed_range(a as int, hi)[k - st.1.len()]);
        }
    }
}

proof fn lemma_index_from_same_names(f1: Seq<(String, VarEntry)>, f2: Seq<(String, VarEntry)>, name: Seq<char>, k: int)
    requires
        f1.len() == f2.len(),
        forall|j: int| 0 <= j < f1.len() ==> #[trigger] f1[j].0 == f2[j].0,
    ensures
        index_from(f1, name, k) == index_from(f2, name, k),
    decreases f1.len() - k,
{
    if 0 <= k < f1.len() {
        lemma_index_from_same_names(f1, f2, name, k + 1);
    }
}

proof fn lemma_find_from_same_names(fs1: Frames, fs2: Frames, name: Seq<char>, i: int)
    requires
        fs1.len() == fs2.len(),
        forall|a: int| 0 <= a < fs1.len() ==> #[trigger] fs1[a].len() == fs2[a].len(),
        forall|a: int, b: int| 0 <= a < fs1.len() && 0 <= b < fs1[a].len() ==> #[trigger] fs1[a][b].0 == fs2[a][b].0,
    ensures
        find_from(fs1, name, i) == find_from(fs2, name, i),
    decreases i + 1,
{
    if 0 <= i < fs1.len() {
        assert forall|j: int| 0 <= j < fs1[i].len() implies #[trigger] fs1[i][j].0 == fs2[i][j].0 by {}
        lemma_index_from_same_names(fs1[i], fs2[i], name, 0);
        lemma_find_from_same_names(fs1, fs2, name, i - 1);
    }
}

/// A read gives back what a write wrote: once a value has been assigned
/// to a variable, reading it gives that value, and every variable of
/// another name reads as before. The scopes keep their shape.
pub proof fn law_write_then_read(fs: Frames, name: String, v: Value, other: String, p1: usize, p2: usize)
    requires
        set_spec(fs, name, v, p1) is Ok,
    ensures
        ({
            let fs2 = set_spec(fs, name, v, p1)->Ok_0;
            &&& get_spec(fs2, name, p2) == Ok::<Value, RuntimeError>(v)
            &&& other@ != name@ ==> get_spec(fs2, other, p2) == get_spec(fs, other, p2)
            &&& fs2.len() == fs.len()
        }),
{
    let fs2 = set_spec(fs, name, v, p1)->Ok_0;
    lemma_find_from(fs, name@, fs.len() - 1);
    let (i, j) = find_var(fs, name@)->0;
    assert forall|a: int| 0 <= a < fs.len() implies #[trigger] fs[a].len() == fs2[a].len() by {}
    assert forall|a: int, b: int| 0 <= a < fs.len() && 0 <= b < fs[a].len() implies #[trigger] fs[a][b].0
        == fs2[a][b].0 by {}
    lemma_find_from_same_names(fs, fs2, name@, fs.len() - 1);
    lemma_find_from_same_names(fs, fs2, other@, fs.len() - 1);
    lemma_find_from(fs, other@, fs.len() - 1);
}

/// The assignment statement `name = literal;` on a declared variable that
/// can hold the value: it succeeds, and reading `name` afterwards gives
/// the literal's value; nothing is printed.
pub proof fn law_assign_then_read(
    prog: Seq<Stmt>,
    st: State,
    name: String,
    lit: AstValue,
    p_id: usize,
    p_eq: usize,
    p2: usize,
    fuel: nat,
)
    requires
        set_spec(st.0, name, literal_value(lit), p_eq) is Ok,
    ensures
        ({
            let s = Stmt::Assign { target: Expr::Ident(name, p_id), expr: Expr::Val(lit), pos_eq: p_eq };
            let (s1, r) = exec_spec(prog, st, s, fuel);
            &&& r == Ok::<(), Stop>(())
            &&& s1.1 == st.1
            &&& eval_spec(prog, s1, Expr::Ident(name, p2), fuel) == (s1, Ok::<Value, Stop>(literal_value(lit)))
        }),
{
    law_write_then_read(st.0, name, literal_value(lit), name, p_eq, p2);
    assert(eval_spec(prog, st, Expr::Val(lit), fuel) == (st, Ok::<Value, Stop>(literal_value(lit))));
}

/// A block is a scope of its own: a variable declared inside it is gone
/// once the block ends, and the scopes are as before.
pub proof fn law_block_scope_ends(prog: Seq<Stmt>, st: State, stmts: Vec<Stmt>, name: String, ty: Option<Type>, dpos: usize, bpos: usize, fuel: nat)
    requires
        stmts@ == seq![Stmt::Decl { name, ty, pos: dpos }],
    ensures
        exec_spec(prog, st, Stmt::Block { stmts, _pos: bpos }, fuel) == (st, Ok::<(), Stop>(())),
{
    let fs1 = st.0.push(Seq::empty());
    let d = Stmt::Decl { name, ty, pos: dpos };
    assert(index_from(fs1[fs1.len() - 1], name@, 0) is None);
    let fs2 = declare_spec(fs1, name, ty, dpos)->Ok_0;
    assert(exec_spec(prog, (fs1, st.1, st.2), d, fuel) == ((fs2, st.1, st.2), Ok::<(), Stop>(())));
    assert(exec_block(prog, (fs2, st.1, st.2), stmts@, 1, fuel) == ((fs2, st.1, st.2), Ok::<(), Stop>(())));
    assert(stmts@[0] == d);
    assert(exec_block(prog, (fs1, st.1, st.2), stmts@, 0, fuel) == ((fs2, st.1, st.2), Ok::<(), Stop>(())));
    assert(fs2.drop_last() =~= st.0);
}

/// `break` leaves the loop it is in: `loop { break; }` ends at once with
/// nothing changed, and `for k in a..b { break; }` runs its body once and
/// ends likewise; a `while` whose condition is false runs nothing.
pub proof fn law_break_and_false_condition(
    prog: Seq<Stmt>,
    st: State,
    body: Vec<Stmt>,
    var: String,
    a: u128,
    b: u128,
    inclusive: bool,
    p1: usize,
    p2: usize,
    fuel: nat,
)
    requires
        body@ == seq![Stmt::Break { pos: p1 }],
        fuel > 0,
        a < b,
    ensures
        exec_spec(prog, st, Stmt::Loop { body, pos: p2 }, fuel) == (st, Ok::<(), Stop>(())),
        exec_spec(
            prog,
            st,
            Stmt::For {
                var,
                start: Expr::Val(AstValue::Num(a)),
                end: Expr::Val(AstValue::Num(b)),
                inclusive,
                body,
                pos: p2,
            },
            fuel,
        ) == (st, Ok::<(), Stop>(())),
        exec_spec(prog, st, Stmt::While { cond: Expr::Val(AstValue::Bool(false)), body, pos: p2 }, fuel) == (
            st,
            Ok::<(), Stop>(()),
        ),
{
    let brk = Stmt::Break { pos: p1 };
    let fs1 = st.0.push(Seq::empty());
    assert(body@[0] == brk);
    assert(exec_spec(prog, (fs1, st.1, st.2), brk, fuel) == ((fs1, st.1, st.2), Err::<(), Stop>(
        Stop::Error(RuntimeError::BreakSignal),
    )));
    assert(exec_block(prog, (fs1, st.1, st.2), body@, 0, fuel) == ((fs1, st.1, st.2), Err::<(), Stop>(
        Stop::Error(RuntimeError::BreakSignal),
    )));
    assert(fs1.drop_last() =~= st.0);
    let frame = seq![(var, VarEntry { ty: Some(Type::T128), val: Some(Value::Num(a)) })];
    let fs2 = st.0.push(frame);
    assert(exec_spec(prog, (fs2, st.1, st.2), brk, fuel) == ((fs2, st.1, st.2), Err::<(), Stop>(
        Stop::Error(RuntimeError::BreakSignal),
    )));
    assert(exec_block(prog, (fs2, st.1, st.2), body@, 0, fuel) == ((fs2, st.1, st.2), Err::<(), Stop>(
        Stop::Error(RuntimeError::BreakSignal),
    )));
    assert(fs2.drop_last() =~= st.0);
    let s = Stmt::For {
        var,
        start: Expr::Val(AstValue::Num(a)),
        end: Expr::Val(AstValue::Num(b)),
        inclusive,
        body,
        pos: p2,
    };
    let hi: int = if inclusive { b + 1 } else { b as int };
    assert(eval_spec(prog, st, Expr::Val(AstValue::Num(a)), fuel) == (st, Ok::<Value, Stop>(Value::Num(a))));
    assert(eval_spec(prog, st, Expr::Val(AstValue::Num(b)), fuel) == (st, Ok::<Value, Stop>(Value::Num(b))));
    assert(exec_spec(prog, st, s, fuel) == exec_for(prog, st, s, a as int, hi, fuel));
    assert(eval_spec(prog, st, Expr::Val(AstValue::Bool(false)), fuel) == (st, Ok::<Value, Stop>(Value::Bool(false))));
}

/// Prefix minus: on an integer it is the two's-complement negation
/// (`n` and `-n` add up to 0 modulo 2^128), on a float it flips the sign
/// bit and keeps the rest; applied twice it gives the value back. Prefix
/// `*` passes any value through.
pub proof fn law_negation(n: u128, b: u64, v: Value, pos: usize)
    ensures
        unary_spec(Op::Minus, Value::Num(n), pos) matches Ok(Value::Num(m)) && (n + m == 0 || n + m == 0x1_0000_0000_0000_0000_0000_0000_0000_0000int),
        unary_spec(Op::Minus, Value::Num(n), pos) matches Ok(Value::Num(m)) && unary_spec(Op::Minus, Value::Num(m), pos) == Ok::<Value, RuntimeError>(Value::Num(n)),
        unary_spec(Op::Minus, Value::Float(b), pos) matches Ok(Value::Float(f)) && (f == b + 0x8000_0000_0000_0000int || f == b - 0x8000_0000_0000_0000int) && (f < 0x8000_0000_0000_0000) != (b < 0x8000_0000_0000_0000),
        unary_spec(Op::Minus, Value::Float(b), pos) matches Ok(Value::Float(f)) && unary_spec(Op::Minus, Value::Float(f), pos) == Ok::<Value, RuntimeError>(Value::Float(b)),
        unary_spec(Op::Mul, v, pos) == Ok::<Value, RuntimeError>(v),
{
}

proof fn lemma_depth(rt: &RunTime)
    ensures
        rt.frames().len() == rt.scopes@.len(),
        forall|i: int| 0 <= i < rt.scopes@.len() ==> rt.frames()[i] == rt.scopes@[i]@,
{
}

} // verus!
