//! Semantic analysis: scopes and name resolution, type rules, and the
//! resolved program they produce.
use vstd::prelude::*;
use crate::frontend::ast::{
    Program, AstValue, CallArg, Expr, Op, ParamKind, Stmt, SuperGroupHandler, Type, WhenArm, WhenBody, WhenPattern,
};
use crate::frontend::model::{
    args_model, enum_model, enums_model, err_model, expr_model, expr_result, fail, funcs_model, key_index,
    keys, lemma_args_model_push, AnalyzerModel, ArgModel, EnumInfoModel, EnumModel, ErrorModel, ExprModel,
    FuncInfoModel, KindModel, groups_model, supers_model, stmt_result, stmts_result, stmts_model, stmt_model,
    lemma_stmts_model_push, arms_model, arm_model, lemma_arms_model_push, func_info_model, assoc_get,
    assoc_insert, ArmModel, StmtModel, program_result,
};
use crate::frontend::rules::{
    arg_msg, arith_msg, arity_msg, binary_rule, binding_ty, builtin_id, call_spec, cast_to, compare_msg,
    copy_undeclared_msg, copy_uninit_msg, expected_ty, expr_spec, handle_strref_msg, into_undeclared_msg,
    into_uninit_msg, logic_msg, read_var, resolve_args, resolve_into, bind_type_params, type_param_msg,
    undeclared_msg, undefined_fn_msg, uninit_msg, value_model, initial_model, stmt_spec, stmts_spec,
    stmt_cost, stmts_cost, arms_cost, arm_cost, handlers_cost, assign_spec, typed_assign_spec, return_spec,
    function_spec, for_spec, for_body, when_spec, when_arms, arm_spec, handlers_spec, declare_params,
    set_params, assigns_var, explicit_groups, group_known, enum_knows, sub_known, super_subs, has_name,
    pattern_model, opt_sem, declared_variants, groups_len, supers_len, lemma_groups_flat_len,
    lemma_supers_flat_len, prepass, program_run, program_spec, program_cost,
};
use crate::frontend::semantic_types::{
    BindingId, EnumId, EnumVariantId, FunctionId, ResolvedBinding, SemanticCallArg, SemanticEnum,
    SemanticEnumGroup, SemanticEnumVariant, SemanticExpr, SemanticExprKind, SemanticParam,
    SemanticParamKind, SemanticType, SemanticValue, SemanticStmt, SemanticFunction, SemanticWhenArm,
    SemanticWhenPattern, SemanticLValue, SemanticProgram,
};
use crate::text::{debug_quoted, debug_text, decimal, push_decimal, push_str, signed_decimal, chars_of};

verus! {

/// A semantic error: a message and the source position it refers to.
#[derive(Debug, Clone)]
pub struct SemanticError {
    pub msg: String,
    pub pos: usize,
}

// ── Type rules ───────────────────────────────────────────────────────────────

/// The semantic type a declared type denotes.
pub open spec fn sem_of_decl(t: Type) -> SemanticType
    decreases t,
{
    match t {
        Type::T8 => SemanticType::I8,
        Type::T16 => SemanticType::I16,
        Type::T32 => SemanticType::I32,
        Type::T64 => SemanticType::I64,
        Type::T128 => SemanticType::I128,
        Type::Bool => SemanticType::Bool,
        Type::Str => SemanticType::Str,
        Type::StrRef => SemanticType::StrRef,
        Type::Container => SemanticType::Container,
        Type::Char => SemanticType::Char,
        Type::Enum(name) => SemanticType::Enum(name),
        Type::Unknown => SemanticType::Unknown,
        Type::Handle(inner) => SemanticType::Handle(Box::new(sem_of_decl(*inner))),
        Type::TypeParam(name) => SemanticType::TypeParam(name),
    }
}

/// The type of a literal: integers are `I128`, floats `F64`.
pub open spec fn sem_of_value(v: AstValue) -> SemanticType {
    match v {
        AstValue::Num(_) => SemanticType::I128,
        AstValue::Float(_) => SemanticType::F64,
        AstValue::Str(_) => SemanticType::Str,
        AstValue::Bool(_) => SemanticType::Bool,
        AstValue::Char(_) => SemanticType::Char,
        AstValue::EnumVariant(enum_name, _) => SemanticType::Enum(enum_name),
        AstValue::Unknown => SemanticType::Unknown,
    }
}

/// The numeric types (including the width-less `Numeric`).
pub open spec fn numeric(t: SemanticType) -> bool {
    match t {
        SemanticType::I8 | SemanticType::I16 | SemanticType::I32 | SemanticType::I64
        | SemanticType::I128 | SemanticType::F64 | SemanticType::Numeric => true,
        _ => false,
    }
}

/// How a type is named in diagnostics: every numeric type as `Numeric`.
pub open spec fn classify(t: SemanticType) -> SemanticType {
    if numeric(t) {
        SemanticType::Numeric
    } else {
        t
    }
}

/// Whether a value of type `got` may stand where `expected` is wanted:
/// equal types, an `Unknown` value, a type parameter on either side, or
/// two numeric types.
pub open spec fn compatible(expected: SemanticType, got: SemanticType) -> bool {
    if sem_eq(expected, got) || got == SemanticType::Unknown {
        true
    } else if expected is TypeParam || got is TypeParam {
        true
    } else {
        numeric(expected) && numeric(got)
    }
}

/// The type two numeric operands are brought to.
pub open spec fn common_numeric(lhs: SemanticType, rhs: SemanticType) -> SemanticType {
    if lhs == SemanticType::Numeric || rhs == SemanticType::Numeric {
        SemanticType::Numeric
    } else if lhs == SemanticType::F64 || rhs == SemanticType::F64 {
        SemanticType::F64
    } else {
        SemanticType::I128
    }
}

/// Debug rendering of a semantic type.
pub open spec fn type_debug(t: SemanticType) -> Seq<char>
    decreases t,
{
    match t {
        SemanticType::I8 => "I8"@,
        SemanticType::I16 => "I16"@,
        SemanticType::I32 => "I32"@,
        SemanticType::I64 => "I64"@,
        SemanticType::I128 => "I128"@,
        SemanticType::F64 => "F64"@,
        SemanticType::Bool => "Bool"@,
        SemanticType::Str => "Str"@,
        SemanticType::StrRef => "StrRef"@,
        SemanticType::Container => "Container"@,
        SemanticType::Char => "Char"@,
        SemanticType::Enum(n) => "Enum("@ + debug_quoted(n@) + ")"@,
        SemanticType::Unknown => "Unknown"@,
        SemanticType::Handle(inner) => "Handle("@ + type_debug(*inner) + ")"@,
        SemanticType::Numeric => "Numeric"@,
        SemanticType::TypeParam(n) => "TypeParam("@ + debug_quoted(n@) + ")"@,
    }
}

/// The semantic type a declared type denotes.
pub fn semantic_type_from_decl(ty: Type) -> (r: SemanticType)
    ensures
        r == sem_of_decl(ty),
    decreases ty,
{
    match ty {
        Type::T8 => SemanticType::I8,
        Type::T16 => SemanticType::I16,
        Type::T32 => SemanticType::I32,
        Type::T64 => SemanticType::I64,
        Type::T128 => SemanticType::I128,
        Type::Bool => SemanticType::Bool,
        Type::Str => SemanticType::Str,
        Type::StrRef => SemanticType::StrRef,
        Type::Container => SemanticType::Container,
        Type::Char => SemanticType::Char,
        Type::Enum(name) => SemanticType::Enum(name),
        Type::Unknown => SemanticType::Unknown,
        Type::Handle(inner) => SemanticType::Handle(Box::new(semantic_type_from_decl(*inner))),
        Type::TypeParam(name) => SemanticType::TypeParam(name),
    }
}

/// The type of a literal.
pub fn semantic_type_from_value(value: &AstValue) -> (r: SemanticType)
    ensures
        r == sem_of_value(*value),
{
    match value {
        AstValue::Num(_) => SemanticType::I128,
        AstValue::Float(_) => SemanticType::F64,
        AstValue::Str(_) => SemanticType::Str,
        AstValue::Bool(_) => SemanticType::Bool,
        AstValue::Char(_) => SemanticType::Char,
        AstValue::EnumVariant(enum_name, _) => SemanticType::Enum(enum_name.clone()),
        AstValue::Unknown => SemanticType::Unknown,
    }
}

/// Type equality, names compared by their characters.
pub open spec fn sem_eq(a: SemanticType, b: SemanticType) -> bool
    decreases a,
{
    match a {
        SemanticType::Enum(x) => b matches SemanticType::Enum(y) && x@ == y@,
        SemanticType::TypeParam(x) => b matches SemanticType::TypeParam(y) && x@ == y@,
        SemanticType::Handle(x) => b matches SemanticType::Handle(y) && sem_eq(*x, *y),
        _ => a == b,
    }
}

/// Whether two semantic types are the same.
pub fn same_type(a: &SemanticType, b: &SemanticType) -> (r: bool)
    ensures
        r == sem_eq(*a, *b),
    decreases a,
{
    match a {
        SemanticType::I8 => {
            let r = match b {
                SemanticType::I8 => true,
                _ => false,
            };
            r
        },
        SemanticType::I16 => match b {
            SemanticType::I16 => true,
            _ => false,
        },
        SemanticType::I32 => match b {
            SemanticType::I32 => true,
            _ => false,
        },
        SemanticType::I64 => match b {
            SemanticType::I64 => true,
            _ => false,
        },
        SemanticType::I128 => match b {
            SemanticType::I128 => true,
            _ => false,
        },
        SemanticType::F64 => match b {
            SemanticType::F64 => true,
            _ => false,
        },
        SemanticType::Bool => match b {
            SemanticType::Bool => true,
            _ => false,
        },
        SemanticType::Str => match b {
            SemanticType::Str => true,
            _ => false,
        },
        SemanticType::StrRef => match b {
            SemanticType::StrRef => true,
            _ => false,
        },
        SemanticType::Container => match b {
            SemanticType::Container => true,
            _ => false,
        },
        SemanticType::Char => match b {
            SemanticType::Char => true,
            _ => false,
        },
        SemanticType::Enum(x) => match b {
            SemanticType::Enum(y) => x.eq(y),
            _ => false,
        },
        SemanticType::Unknown => match b {
            SemanticType::Unknown => true,
            _ => false,
        },
        SemanticType::Handle(x) => match b {
            SemanticType::Handle(y) => same_type(&**x, &**y),
            _ => false,
        },
        SemanticType::Numeric => match b {
            SemanticType::Numeric => true,
            _ => false,
        },
        SemanticType::TypeParam(x) => match b {
            SemanticType::TypeParam(y) => x.eq(y),
            _ => false,
        },
    }
}

/// Whether `ty` is numeric.
pub fn is_numeric(ty: &SemanticType) -> (r: bool)
    ensures
        r == numeric(*ty),
{
    match ty {
        SemanticType::I8 | SemanticType::I16 | SemanticType::I32 | SemanticType::I64
        | SemanticType::I128 | SemanticType::F64 | SemanticType::Numeric => true,
        _ => false,
    }
}

/// How a type is named in diagnostics.
pub fn classify_type(ty: &SemanticType) -> (r: SemanticType)
    ensures
        r == classify(*ty),
{
    if is_numeric(ty) {
        SemanticType::Numeric
    } else {
        ty.clone()
    }
}

/// Whether a `got` value may stand where `expected` is wanted.
pub fn types_compatible(expected: &SemanticType, got: &SemanticType) -> (r: bool)
    ensures
        r == compatible(*expected, *got),
{
    if same_type(expected, got) || matches!(got, SemanticType::Unknown) {
        return true;
    }
    if matches!(expected, SemanticType::TypeParam(_)) || matches!(got, SemanticType::TypeParam(_)) {
        return true;
    }
    is_numeric(expected) && is_numeric(got)
}

/// The type two numeric operands are brought to.
pub fn common_numeric_type(lhs: &SemanticType, rhs: &SemanticType) -> (r: SemanticType)
    ensures
        r == common_numeric(*lhs, *rhs),
{
    if matches!(lhs, SemanticType::Numeric) || matches!(rhs, SemanticType::Numeric) {
        SemanticType::Numeric
    } else if matches!(lhs, SemanticType::F64) || matches!(rhs, SemanticType::F64) {
        SemanticType::F64
    } else {
        SemanticType::I128
    }
}

/// Append the Debug rendering of `t` to `s`.
pub fn push_type_debug(s: &mut String, t: &SemanticType)
    ensures
        final(s)@ == old(s)@ + type_debug(*t),
    decreases t,
{
    match t {
        SemanticType::I8 => push_str(s, "I8"),
        SemanticType::I16 => push_str(s, "I16"),
        SemanticType::I32 => push_str(s, "I32"),
        SemanticType::I64 => push_str(s, "I64"),
        SemanticType::I128 => push_str(s, "I128"),
        SemanticType::F64 => push_str(s, "F64"),
        SemanticType::Bool => push_str(s, "Bool"),
        SemanticType::Str => push_str(s, "Str"),
        SemanticType::StrRef => push_str(s, "StrRef"),
        SemanticType::Container => push_str(s, "Container"),
        SemanticType::Char => push_str(s, "Char"),
        SemanticType::Enum(n) => {
            push_str(s, "Enum(");
            let d = debug_text(&chars_of(n.as_str()));
            push_str(s, d.as_str());
            push_str(s, ")");
        },
        SemanticType::Unknown => push_str(s, "Unknown"),
        SemanticType::Handle(inner) => {
            push_str(s, "Handle(");
            push_type_debug(s, &**inner);
            push_str(s, ")");
        },
        SemanticType::Numeric => push_str(s, "Numeric"),
        SemanticType::TypeParam(n) => {
            push_str(s, "TypeParam(");
            let d = debug_text(&chars_of(n.as_str()));
            push_str(s, d.as_str());
            push_str(s, ")");
        },
    }
    proof {
        assert(final(s)@ =~= old(s)@ + type_debug(*t));
    }
}

/// The message of a type mismatch between `expected` and `got`.
pub open spec fn mismatch_msg(expected: SemanticType, got: SemanticType) -> Seq<char> {
    "type mismatch: expected "@ + type_debug(classify(expected)) + ", got "@ + type_debug(classify(got))
}

/// The error for a value of type `got` where `expected` is wanted.
pub fn type_mismatch_error(expected: &SemanticType, got: &SemanticType, pos: usize) -> (e: SemanticError)
    ensures
        e.msg@ == mismatch_msg(*expected, *got),
        e.pos == pos,
{
    let mut msg = String::new();
    push_str(&mut msg, "type mismatch: expected ");
    push_type_debug(&mut msg, &classify_type(expected));
    push_str(&mut msg, ", got ");
    push_type_debug(&mut msg, &classify_type(got));
    proof {
        assert(msg@ =~= mismatch_msg(*expected, *got));
    }
    SemanticError { msg, pos }
}

/// The inclusive range of values a sized integer type holds (`None` for
/// `T128` and non-integer types).
pub open spec fn int_range(t: Type) -> Option<(int, int)> {
    match t {
        Type::T8 => Some((-128, 127)),
        Type::T16 => Some((-32768, 32767)),
        Type::T32 => Some((-2147483648, 2147483647)),
        Type::T64 => Some((-9223372036854775808, 9223372036854775807)),
        _ => None,
    }
}

/// Debug name of the sized integer types.
pub open spec fn int_type_name(t: Type) -> Seq<char> {
    match t {
        Type::T8 => "T8"@,
        Type::T16 => "T16"@,
        Type::T32 => "T32"@,
        _ => "T64"@,
    }
}

/// The message for an integer literal `n` that does not fit `t`.
pub open spec fn overflow_msg(t: Type, n: u128) -> Seq<char> {
    let (min, max) = int_range(t).unwrap();
    "value "@ + decimal(n as nat) + " overflows type "@ + int_type_name(t) + " (range "@
        + signed_decimal(min) + ".."@ + decimal(max as nat) + ")"@
}

/// Reject an integer literal that does not fit the declared sized type.
pub fn check_num_range(ty: Type, n: u128, pos: usize) -> (r: Result<(), SemanticError>)
    ensures
        match int_range(ty) {
            Some((min, max)) => if n > max {
                r matches Err(e) && e.msg@ == overflow_msg(ty, n) && e.pos == pos
            } else {
                r is Ok
            },
            None => r is Ok,
        },
{
    let (min, max, name): (i64, u64, &str) = match ty {
        Type::T8 => (-128, 127, "T8"),
        Type::T16 => (-32768, 32767, "T16"),
        Type::T32 => (-2147483648, 2147483647, "T32"),
        Type::T64 => (-9223372036854775808, 9223372036854775807, "T64"),
        _ => {
            return Ok(());
        },
    };
    if n > max as u128 {
        let mut msg = String::new();
        push_str(&mut msg, "value ");
        push_decimal(&mut msg, n);
        push_str(&mut msg, " overflows type ");
        push_str(&mut msg, name);
        push_str(&mut msg, " (range ");
        crate::text::push_signed(&mut msg, min);
        push_str(&mut msg, "..");
        push_decimal(&mut msg, max as u128);
        push_str(&mut msg, ")");
        proof {
            assert(msg@ =~= overflow_msg(ty, n));
        }
        return Err(SemanticError { msg, pos });
    }
    Ok(())
}

/// The binding id of a parameter before it is declared.
pub const UNBOUND: u32 = 4294967295;

/// The parameter record a function's signature gets before its body is
/// analysed: the real binding is not known yet.
pub open spec fn placeholder_of(p: ParamKind) -> SemanticParam {
    match p {
        ParamKind::Typed(name, ty) => SemanticParam {
            binding: BindingId(UNBOUND),
            name,
            kind: SemanticParamKind::Typed,
            ty: Some(sem_of_decl(ty)),
        },
        ParamKind::Copy(name) => SemanticParam {
            binding: BindingId(UNBOUND),
            name,
            kind: SemanticParamKind::Copy,
            ty: None,
        },
        ParamKind::CopyFree(name) => SemanticParam {
            binding: BindingId(UNBOUND),
            name,
            kind: SemanticParamKind::CopyFree,
            ty: None,
        },
        ParamKind::CopyInto(name, _) => SemanticParam {
            binding: BindingId(UNBOUND),
            name,
            kind: SemanticParamKind::CopyInto,
            ty: None,
        },
    }
}

/// The signature record of a parameter before its body is analysed.
pub fn semantic_param_placeholder(param: &ParamKind) -> (p: SemanticParam)
    ensures
        p == placeholder_of(*param),
{
    match param {
        ParamKind::Typed(name, ty) => SemanticParam {
            binding: BindingId(UNBOUND),
            name: name.clone(),
            kind: SemanticParamKind::Typed,
            ty: Some(semantic_type_from_decl(ty.clone())),
        },
        ParamKind::Copy(name) => SemanticParam {
            binding: BindingId(UNBOUND),
            name: name.clone(),
            kind: SemanticParamKind::Copy,
            ty: None,
        },
        ParamKind::CopyFree(name) => SemanticParam {
            binding: BindingId(UNBOUND),
            name: name.clone(),
            kind: SemanticParamKind::CopyFree,
            ty: None,
        },
        ParamKind::CopyInto(name, _) => SemanticParam {
            binding: BindingId(UNBOUND),
            name: name.clone(),
            kind: SemanticParamKind::CopyInto,
            ty: None,
        },
    }
}

/// Whether a statement returns, looking into nested blocks but not into
/// nested function definitions.
pub open spec fn stmt_returns(s: Stmt) -> bool
    decreases s, 0int,
{
    match s {
        Stmt::Return { .. } => true,
        Stmt::Block { stmts, .. } => some_stmt_returns(stmts@, stmts@.len() as int),
        _ => false,
    }
}

/// Whether one of the first `n` statements returns.
pub open spec fn some_stmt_returns(ss: Seq<Stmt>, n: int) -> bool
    decreases ss, n,
{
    if n <= 0 || n > ss.len() {
        false
    } else {
        some_stmt_returns(ss, n - 1) || stmt_returns(ss[n - 1])
    }
}

proof fn lemma_some_returns(ss: Seq<Stmt>, i: int, n: int)
    requires
        0 <= i < n <= ss.len(),
        stmt_returns(ss[i]),
    ensures
        some_stmt_returns(ss, n),
    decreases n,
{
    if i < n - 1 {
        lemma_some_returns(ss, i, n - 1);
    }
}

/// Whether one of `stmts` returns (see [`stmt_returns`]).
pub fn contains_return_stmt(stmts: &Vec<Stmt>) -> (r: bool)
    ensures
        r == some_stmt_returns(stmts@, stmts@.len() as int),
    decreases stmts@, 1int,
{
    let mut i: usize = 0;
    while i < stmts.len()
        invariant
            i <= stmts@.len(),
            !some_stmt_returns(stmts@, i as int),
        decreases stmts@.len() - i,
    {
        if stmt_contains_return(&stmts[i]) {
            proof {
                lemma_some_returns(stmts@, i as int, stmts@.len() as int);
            }
            return true;
        }
        i = i + 1;
    }
    false
}

/// Whether `stmt` returns (see [`stmt_returns`]).
pub fn stmt_contains_return(stmt: &Stmt) -> (r: bool)
    ensures
        r == stmt_returns(*stmt),
    decreases *stmt, 0int,
{
    match stmt {
        Stmt::Return { .. } => true,
        Stmt::Block { stmts, .. } => contains_return_stmt(stmts),
        _ => false,
    }
}

} // verus!

verus! {

// ── Scopes and the analyzer state ────────────────────────────────────────────

/// What the analyzer knows of one variable.
#[derive(Debug)]
pub struct VarInfo {
    pub binding: BindingId,
    pub declared: Option<Type>,
    pub inferred: Option<SemanticType>,
    pub initialized: bool,
}

/// What the analyzer knows of one function.
#[derive(Debug)]
pub struct FunctionInfo {
    pub id: FunctionId,
    pub params: Vec<SemanticParam>,
    pub ret_ty: Option<SemanticType>,
    pub type_params: Vec<String>,
}

/// What the analyzer knows of one enum.
#[derive(Debug)]
pub struct EnumInfo {
    pub id: EnumId,
    /// Variant name to id; a later entry for the same name wins.
    pub variants: Vec<(String, EnumVariantId)>,
    pub groups: Vec<(String, Vec<String>)>,
    pub super_groups: Vec<(String, Vec<(String, Vec<String>)>)>,
}

/// One lexical scope: names in declaration order.
pub type Scope = Vec<(String, VarInfo)>;

/// The analyzer's state.
pub struct Analyzer {
    scopes: Vec<Scope>,
    current_ret_ty: Option<SemanticType>,
    in_function: bool,
    funcs: Vec<(String, FunctionInfo)>,
    enums: Vec<(String, EnumInfo)>,
    enum_defs: Vec<SemanticEnum>,
    next_binding_id: u32,
    next_function_id: u32,
    next_enum_id: u32,
    next_enum_variant_id: u32,
}

/// Index of the entry named `name` in a scope, searching from index `from`.
pub open spec fn find_from(scope: Seq<(String, VarInfo)>, name: Seq<char>, from: int) -> Option<int>
    decreases scope.len() - from,
{
    if from < 0 || from >= scope.len() {
        None
    } else if scope[from].0@ == name {
        Some(from)
    } else {
        find_from(scope, name, from + 1)
    }
}

/// Where `name` resolves among the first `k` scopes, innermost first:
/// (scope index, entry index).
pub open spec fn resolve_in(scopes: Seq<Seq<(String, VarInfo)>>, name: Seq<char>, k: int) -> Option<(int, int)>
    decreases k,
{
    if k <= 0 || k > scopes.len() {
        None
    } else {
        match find_from(scopes[k - 1], name, 0) {
            Some(j) => Some((k - 1, j)),
            None => resolve_in(scopes, name, k - 1),
        }
    }
}

proof fn lemma_find_from(scope: Seq<(String, VarInfo)>, name: Seq<char>, from: int)
    requires
        0 <= from,
    ensures
        match find_from(scope, name, from) {
            Some(j) => from <= j < scope.len() && scope[j].0@ == name,
            None => forall|j: int| from <= j < scope.len() ==> scope[j].0@ != name,
        },
    decreases scope.len() - from,
{
    if from < scope.len() && scope[from].0@ != name {
        lemma_find_from(scope, name, from + 1);
    }
}

proof fn lemma_resolve_in(scopes: Seq<Seq<(String, VarInfo)>>, name: Seq<char>, k: int)
    ensures
        resolve_in(scopes, name, k) matches Some((i, j)) ==> 0 <= i < k && i < scopes.len() && 0 <= j
            < scopes[i].len() && scopes[i][j].0@ == name,
    decreases k,
{
    if 0 < k <= scopes.len() {
        lemma_find_from(scopes[k - 1], name, 0);
        lemma_resolve_in(scopes, name, k - 1);
    }
}

fn find_in_scope(scope: &Scope, name: &str) -> (r: Option<usize>)
    ensures
        r matches Some(j) ==> find_from(scope@, name@, 0) == Some(j as int),
        r is None ==> find_from(scope@, name@, 0) is None,
{
    let mut j: usize = 0;
    while j < scope.len()
        invariant
            j <= scope@.len(),
            find_from(scope@, name@, 0) == find_from(scope@, name@, j as int),
        decreases scope@.len() - j,
    {
        if str_eq_string(name, &scope[j].0) {
            return Some(j);
        }
        j = j + 1;
    }
    None
}

/// Whether `a` and `b` hold the same characters.
pub fn str_eq_string(a: &str, b: &String) -> (r: bool)
    ensures
        r == (a@ == b@),
{
    let ca = chars_of(a);
    let cb = chars_of(b.as_str());
    crate::text::chars_eq(ca.as_slice(), cb.as_slice())
}

/// The message for a second declaration of `name` in one scope.
pub open spec fn redeclared_msg(name: Seq<char>) -> Seq<char> {
    "variable already declared in this scope: "@ + name
}

impl Analyzer {
    pub closed spec fn scopes_view(&self) -> Seq<Seq<(String, VarInfo)>> {
        self.scopes@.map_values(|s: Scope| s@)
    }

    /// The analyzer as its model.
    pub closed spec fn model(&self) -> AnalyzerModel {
        AnalyzerModel {
            scopes: self.scopes_view(),
            ret_ty: self.current_ret_ty,
            in_function: self.in_function,
            funcs: funcs_model(self.funcs@),
            enums: enums_model(self.enums@),
            enum_defs: self.enum_defs@.map_values(|e: SemanticEnum| enum_model(e)),
            next_binding: self.next_binding_id,
            next_function: self.next_function_id,
            next_enum: self.next_enum_id,
            next_variant: self.next_enum_variant_id,
        }
    }

    /// At least one scope is open.
    pub open spec fn wf(&self) -> bool {
        self.model().scopes.len() >= 1
    }

    /// A fresh analyzer: one empty (global) scope, nothing declared, not
    /// inside a function, every id counter at 0.
    pub fn new() -> (a: Self)
        ensures
            a.model() == initial_model(),
    {
        let mut scopes: Vec<Scope> = Vec::new();
        scopes.push(Vec::new());
        let a = Analyzer {
            scopes,
            current_ret_ty: None,
            in_function: false,
            funcs: Vec::new(),
            enums: Vec::new(),
            enum_defs: Vec::new(),
            next_binding_id: 0,
            next_function_id: 0,
            next_enum_id: 0,
            next_enum_variant_id: 0,
        };
        proof {
            assert(a.scopes_view() =~= seq![Seq::<(String, VarInfo)>::empty()]);
            assert(a.model().funcs =~= Seq::<(String, FuncInfoModel)>::empty());
            assert(a.model().enums =~= Seq::<(String, EnumInfoModel)>::empty());
            assert(a.model().enum_defs =~= Seq::<EnumModel>::empty());
        }
        a
    }

    /// Open a new innermost scope.
    pub fn push_scope(&mut self)
        ensures
            final(self).model() == old(self).model().push_scope(),
    {
        self.scopes.push(Vec::new());
        proof {
            assert(self.scopes_view() =~= old(self).scopes_view().push(Seq::empty()));
        }
    }

    /// Close the innermost scope (no effect when none is open).
    pub fn pop_scope(&mut self)
        ensures
            final(self).model() == old(self).model().pop_scope(),
    {
        self.scopes.pop();
        proof {
            if old(self).scopes_view().len() > 0 {
                assert(self.scopes_view() =~= old(self).scopes_view().drop_last());
            }
        }
    }

    /// A new binding id.
    pub fn fresh_binding(&mut self) -> (id: BindingId)
        requires
            old(self).model().next_binding < u32::MAX,
        ensures
            (id, final(self).model()) == old(self).model().fresh_binding(),
    {
        let id = BindingId(self.next_binding_id);
        self.next_binding_id = self.next_binding_id + 1;
        id
    }

    /// A new function id.
    pub fn fresh_function(&mut self) -> (id: FunctionId)
        requires
            old(self).model().next_function < u32::MAX,
        ensures
            (id, final(self).model()) == old(self).model().fresh_function(),
    {
        let id = FunctionId(self.next_function_id);
        self.next_function_id = self.next_function_id + 1;
        id
    }

    /// A new enum id.
    pub fn fresh_enum(&mut self) -> (id: EnumId)
        requires
            old(self).model().next_enum < u32::MAX,
        ensures
            id == EnumId(old(self).model().next_enum),
            final(self).model() == (AnalyzerModel {
                next_enum: (old(self).model().next_enum + 1) as u32,
                ..old(self).model()
            }),
    {
        let id = EnumId(self.next_enum_id);
        self.next_enum_id = self.next_enum_id + 1;
        id
    }

    /// A new enum-variant id.
    pub fn fresh_enum_variant(&mut self) -> (id: EnumVariantId)
        requires
            old(self).model().next_variant < u32::MAX,
        ensures
            id == EnumVariantId(old(self).model().next_variant),
            final(self).model() == (AnalyzerModel {
                next_variant: (old(self).model().next_variant + 1) as u32,
                ..old(self).model()
            }),
    {
        let id = EnumVariantId(self.next_enum_variant_id);
        self.next_enum_variant_id = self.next_enum_variant_id + 1;
        id
    }

    /// Declare `name` in the innermost scope (see
    /// [`AnalyzerModel::declare`]).
    pub fn declare(
        &mut self,
        name: &String,
        declared: Option<Type>,
        inferred: Option<SemanticType>,
        initialized: bool,
        pos: usize,
    ) -> (r: Result<BindingId, SemanticError>)
        requires
            old(self).wf(),
            old(self).model().next_binding < u32::MAX,
        ensures
            final(self).wf(),
            ({
                let (r2, m2) = old(self).model().declare(*name, declared, inferred, initialized, pos);
                &&& final(self).model() == m2
                &&& match r {
                    Ok(b) => r2 == Ok::<BindingId, ErrorModel>(b),
                    Err(e) => r2 == Err::<BindingId, ErrorModel>(err_model(e)),
                }
            }),
    {
        let binding = self.fresh_binding();
        let last = self.scopes.len() - 1;
        proof {
            assert(self.scopes_view()[last as int] == self.scopes@[last as int]@);
        }
        if find_in_scope(&self.scopes[last], name.as_str()).is_some() {
            return Err(prefixed_error("variable already declared in this scope: ", name, pos));
        }
        let mut scope: Scope = Vec::new();
        self.scopes.set_and_swap(last, &mut scope);
        scope.push((name.clone(), VarInfo { binding, declared, inferred, initialized }));
        self.scopes.set_and_swap(last, &mut scope);
        proof {
            let m = old(self).model();
            let top = m.scopes.last();
            assert(self.scopes_view() =~= m.scopes.update(
                m.scopes.len() - 1,
                top.push((*name, VarInfo { binding, declared, inferred, initialized })),
            ));
        }
        Ok(binding)
    }

    /// The variable `name` resolves to, innermost scope first.
    pub fn lookup_var(&self, name: &str) -> (r: Option<&VarInfo>)
        ensures
            r == match self.model().lookup(name@) {
                Some(v) => Some(&v),
                None => None::<&VarInfo>,
            },
    {
        let mut k = self.scopes.len();
        while k > 0
            invariant
                k <= self.scopes@.len(),
                self.model().resolve(name@) == resolve_in(self.scopes_view(), name@, k as int),
            decreases k,
        {
            let found = find_in_scope(&self.scopes[k - 1], name);
            proof {
                assert(self.scopes_view()[k - 1] == self.scopes@[k - 1]@);
                lemma_find_from(self.scopes_view()[k - 1], name@, 0);
            }
            match found {
                Some(j) => {
                    proof {
                        assert(self.scopes_view()[k - 1][j as int] == self.scopes@[k - 1]@[j as int]);
                        assert(resolve_in(self.scopes_view(), name@, k as int) == Some((k - 1, j as int)));
                    }
                    return Some(&self.scopes[k - 1][j].1);
                },
                None => {},
            }
            k = k - 1;
        }
        None
    }

    /// Where `name` resolves, as (scope index, entry index).
    pub fn locate_var(&self, name: &str) -> (r: Option<(usize, usize)>)
        ensures
            match r {
                Some((i, j)) => self.model().resolve(name@) == Some((i as int, j as int)) && i
                    < self.model().scopes.len() && j < self.model().scopes[i as int].len(),
                None => self.model().resolve(name@) is None,
            },
    {
        proof {
            lemma_resolve_in(self.scopes_view(), name@, self.scopes_view().len() as int);
        }
        let mut k = self.scopes.len();
        while k > 0
            invariant
                k <= self.scopes@.len(),
                self.model().resolve(name@) == resolve_in(self.scopes_view(), name@, k as int),
            decreases k,
        {
            let found = find_in_scope(&self.scopes[k - 1], name);
            proof {
                assert(self.scopes_view()[k - 1] == self.scopes@[k - 1]@);
                lemma_find_from(self.scopes_view()[k - 1], name@, 0);
            }
            match found {
                Some(j) => {
                    return Some((k - 1, j));
                },
                None => {},
            }
            k = k - 1;
        }
        None
    }

    /// Record what an assignment learnt of the variable at (`i`, `j`): its
    /// inferred type and that it is initialized.
    pub fn update_var(&mut self, i: usize, j: usize, inferred: Option<SemanticType>, initialized: bool)
        requires
            i < old(self).model().scopes.len(),
            j < old(self).model().scopes[i as int].len(),
        ensures
            ({
                let m = old(self).model();
                let info = m.scopes[i as int][j as int].1;
                final(self).model() == m.with_scopes(
                    m.scopes.update(
                        i as int,
                        m.scopes[i as int].update(
                            j as int,
                            (m.scopes[i as int][j as int].0, VarInfo { inferred, initialized, ..info }),
                        ),
                    ),
                )
            }),
    {
        let ghost m = old(self).model();
        let mut scope: Scope = Vec::new();
        self.scopes.set_and_swap(i, &mut scope);
        proof {
            assert(scope@ == m.scopes[i as int]);
        }
        let mut entry = (String::new(), VarInfo { binding: BindingId(0), declared: None, inferred: None, initialized: false });
        scope.set_and_swap(j, &mut entry);
        let (name, info) = entry;
        let mut updated = (name, VarInfo { binding: info.binding, declared: info.declared, inferred, initialized });
        scope.set_and_swap(j, &mut updated);
        let ghost new_scope = scope@;
        self.scopes.set_and_swap(i, &mut scope);
        proof {
            let info0 = m.scopes[i as int][j as int].1;
            assert(new_scope =~= m.scopes[i as int].update(
                j as int,
                (m.scopes[i as int][j as int].0, VarInfo { inferred, initialized, ..info0 }),
            ));
            assert(self.scopes@[i as int]@ == new_scope);
            assert(self.scopes_view() =~= m.scopes.update(i as int, new_scope));
        }
    }
}

} // verus!

verus! {

// ── Expressions ──────────────────────────────────────────────────────────────

/// Position of the first entry named `key`.
pub fn key_position<T>(s: &Vec<(String, T)>, key: &str) -> (r: Option<usize>)
    ensures
        match r {
            Some(j) => key_index(keys(s@), key@, 0) == Some(j as int) && j < s@.len() && s@[j as int].0@
                == key@,
            None => key_index(keys(s@), key@, 0) is None,
        },
{
    proof {
        crate::frontend::model::lemma_key_index(keys(s@), key@, 0);
    }
    let mut j: usize = 0;
    while j < s.len()
        invariant
            j <= s@.len(),
            key_index(keys(s@), key@, 0) == key_index(keys(s@), key@, j as int),
        decreases s@.len() - j,
    {
        if str_eq_string(key, &s[j].0) {
            return Some(j);
        }
        j = j + 1;
    }
    None
}

/// An error whose message is `prefix`, `name` and `suffix`.
fn name_error(prefix: &str, name: &String, suffix: &str, pos: usize) -> (e: SemanticError)
    ensures
        e.msg@ == prefix@ + name@ + suffix@,
        e.pos == pos,
{
    let mut msg = String::new();
    push_str(&mut msg, prefix);
    push_str(&mut msg, name.as_str());
    push_str(&mut msg, suffix);
    proof {
        assert(msg@ =~= prefix@ + name@ + suffix@);
    }
    SemanticError { msg, pos }
}

/// An error whose message is `prefix` followed by `name`.
fn prefixed_error(prefix: &str, name: &String, pos: usize) -> (e: SemanticError)
    ensures
        e.msg@ == prefix@ + name@,
        e.pos == pos,
{
    let mut msg = String::new();
    push_str(&mut msg, prefix);
    push_str(&mut msg, name.as_str());
    proof {
        assert(msg@ =~= prefix@ + name@);
    }
    SemanticError { msg, pos }
}

/// An error whose message is `text`.
fn text_error(text: &str, pos: usize) -> (e: SemanticError)
    ensures
        e.msg@ == text@,
        e.pos == pos,
{
    let mut msg = String::new();
    push_str(&mut msg, text);
    proof {
        assert(msg@ =~= text@);
    }
    SemanticError { msg, pos }
}

/// The error of two operands of the wrong kinds: `prefix`, the left type,
/// `middle`, the right type (both as diagnostics name them).
fn operands_error(prefix: &str, l: &SemanticType, middle: &str, r: &SemanticType, pos: usize) -> (e: SemanticError)
    ensures
        e.msg@ == prefix@ + crate::frontend::semantic::type_debug(classify(*l)) + middle@
            + crate::frontend::semantic::type_debug(classify(*r)),
        e.pos == pos,
{
    let mut msg = String::new();
    push_str(&mut msg, prefix);
    push_type_debug(&mut msg, &classify_type(l));
    push_str(&mut msg, middle);
    push_type_debug(&mut msg, &classify_type(r));
    proof {
        assert(msg@ =~= prefix@ + type_debug(classify(*l)) + middle@ + type_debug(classify(*r)));
    }
    SemanticError { msg, pos }
}

/// The type a variable has (see [`binding_ty`]).
pub fn binding_type(info: &VarInfo) -> (t: SemanticType)
    ensures
        t == binding_ty(*info),
{
    match &info.declared {
        Some(d) => semantic_type_from_decl(d.clone()),
        None => match &info.inferred {
            Some(t) => t.clone(),
            None => SemanticType::Numeric,
        },
    }
}

/// A literal after analysis (see [`value_model`]).
pub fn semantic_value_from_ast(value: &AstValue, enums: &Vec<(String, EnumInfo)>) -> (r: SemanticValue)
    ensures
        r == value_model(*value, enums_model(enums@)),
{
    match value {
        AstValue::Num(n) => SemanticValue::Num(*n),
        AstValue::Float(f) => SemanticValue::Float(*f),
        AstValue::Str(s) => SemanticValue::Str(s.clone()),
        AstValue::Bool(b) => SemanticValue::Bool(*b),
        AstValue::Char(c) => SemanticValue::Char(*c),
        AstValue::EnumVariant(enum_name, variant_name) => {
            proof {
                assert(keys(enums_model(enums@)) =~= keys(enums@));
            }
            let (enum_id, variant_id) = match key_position(enums, enum_name.as_str()) {
                Some(i) => {
                    let info = &enums[i].1;
                    proof {
                        assert(enums_model(enums@)[i as int].1 == crate::frontend::model::enum_info_model(enums@[i as int].1));
                    }
                    let v = match key_position(&info.variants, variant_name.as_str()) {
                        Some(j) => Some(info.variants[j].1),
                        None => None,
                    };
                    (Some(info.id), v)
                },
                None => (None, None),
            };
            SemanticValue::EnumVariant {
                enum_name: enum_name.clone(),
                variant_name: variant_name.clone(),
                enum_id,
                variant_id,
            }
        },
        AstValue::Unknown => SemanticValue::Unknown,
    }
}

/// `expr` converted to `target` where both are numeric and differ (see
/// [`cast_to`]).
pub fn insert_cast_if_needed(expr: SemanticExpr, target: &SemanticType) -> (r: SemanticExpr)
    ensures
        expr_model(r) == cast_to(expr_model(expr), *target),
{
    if same_type(&expr.ty, target) {
        return expr;
    }
    if !is_numeric(&expr.ty) || !is_numeric(target) {
        return expr;
    }
    let from = expr.ty.clone();
    SemanticExpr {
        ty: target.clone(),
        kind: SemanticExprKind::Cast { expr: Box::new(expr), from, to: target.clone() },
    }
}

fn bin_expr(ty: SemanticType, lhs: SemanticExpr, op: Op, pos: usize, rhs: SemanticExpr) -> (e: SemanticExpr)
    ensures
        expr_model(e) == crate::frontend::rules::bin_node(ty, expr_model(lhs), op, pos, expr_model(rhs)),
{
    SemanticExpr { ty, kind: SemanticExprKind::Binary { lhs: Box::new(lhs), op, pos, rhs: Box::new(rhs) } }
}

/// The typing rule of a binary operator on analysed operands (see
/// [`binary_rule`]).
pub fn analyze_binary(lhs: SemanticExpr, op: Op, op_pos: usize, rhs: SemanticExpr) -> (r: Result<SemanticExpr, SemanticError>)
    ensures
        expr_result(r) == binary_rule(expr_model(lhs), op, op_pos, expr_model(rhs)),
{
    let unknown = matches!(lhs.ty, SemanticType::Unknown) || matches!(rhs.ty, SemanticType::Unknown);
    match op {
        Op::Plus | Op::Minus | Op::Mul | Op::Div | Op::Mod => {
            if unknown {
                return Ok(bin_expr(SemanticType::Unknown, lhs, op, op_pos, rhs));
            }
            if !is_numeric(&lhs.ty) || !is_numeric(&rhs.ty) {
                return Err(operands_error(
                    "arithmetic requires numeric operands, got ",
                    &lhs.ty,
                    " and ",
                    &rhs.ty,
                    op_pos,
                ));
            }
            let t = common_numeric_type(&lhs.ty, &rhs.ty);
            let l = insert_cast_if_needed(lhs, &t);
            let r = insert_cast_if_needed(rhs, &t);
            Ok(bin_expr(t, l, op, op_pos, r))
        },
        Op::EqEq => {
            if unknown {
                return Ok(bin_expr(SemanticType::Unknown, lhs, op, op_pos, rhs));
            }
            if is_numeric(&lhs.ty) && is_numeric(&rhs.ty) {
                let t = common_numeric_type(&lhs.ty, &rhs.ty);
                let l = insert_cast_if_needed(lhs, &t);
                let r = insert_cast_if_needed(rhs, &t);
                return Ok(bin_expr(SemanticType::Bool, l, op, op_pos, r));
            }
            let equatable = match &lhs.ty {
                SemanticType::Bool | SemanticType::Char | SemanticType::Str | SemanticType::StrRef
                | SemanticType::Enum(_) => true,
                _ => false,
            };
            if same_type(&lhs.ty, &rhs.ty) && equatable {
                return Ok(bin_expr(SemanticType::Bool, lhs, op, op_pos, rhs));
            }
            Err(operands_error("cannot compare ", &lhs.ty, " == ", &rhs.ty, op_pos))
        },
        Op::Lt | Op::Gt | Op::LtEq | Op::GtEq => {
            let t = if unknown { SemanticType::Unknown } else { SemanticType::Bool };
            Ok(bin_expr(t, lhs, op, op_pos, rhs))
        },
        Op::And | Op::Or => {
            let lok = matches!(lhs.ty, SemanticType::Bool | SemanticType::Unknown);
            let rok = matches!(rhs.ty, SemanticType::Bool | SemanticType::Unknown);
            if lok && rok {
                let t = if unknown { SemanticType::Unknown } else { SemanticType::Bool };
                Ok(bin_expr(t, lhs, op, op_pos, rhs))
            } else {
                Err(operands_error(
                    "logical operation requires bool operands, got ",
                    &lhs.ty,
                    " and ",
                    &rhs.ty,
                    op_pos,
                ))
            }
        },
    }
}

fn arity_error(name: &String, want: usize, got: usize, pos: usize) -> (e: SemanticError)
    ensures
        err_model(e) == (ErrorModel { msg: arity_msg(name@, want as nat, got as nat), pos }),
{
    let mut msg = String::new();
    push_str(&mut msg, "function '");
    push_str(&mut msg, name.as_str());
    push_str(&mut msg, "' expects ");
    push_decimal(&mut msg, want as u128);
    push_str(&mut msg, " argument(s), got ");
    push_decimal(&mut msg, got as u128);
    proof {
        assert(msg@ =~= arity_msg(name@, want as nat, got as nat));
    }
    SemanticError { msg, pos }
}

fn type_param_error(t: &String, bound: &SemanticType, k: usize, got: &SemanticType, pos: usize) -> (e: SemanticError)
    ensures
        err_model(e) == (ErrorModel { msg: type_param_msg(t@, *bound, k as nat, *got), pos }),
{
    let mut msg = String::new();
    push_str(&mut msg, "type parameter '");
    push_str(&mut msg, t.as_str());
    push_str(&mut msg, "' is bound to ");
    push_type_debug(&mut msg, &classify_type(bound));
    push_str(&mut msg, " but argument ");
    push_decimal(&mut msg, k as u128);
    push_str(&mut msg, " has ");
    push_type_debug(&mut msg, &classify_type(got));
    proof {
        assert(msg@ =~= type_param_msg(t@, *bound, k as nat, *got));
    }
    SemanticError { msg, pos }
}

fn arg_error(k: usize, name: &String, expected: &SemanticType, got: &SemanticType, pos: usize) -> (e: SemanticError)
    ensures
        err_model(e) == (ErrorModel { msg: arg_msg(k as nat, name@, *expected, *got), pos }),
{
    let mut msg = String::new();
    push_str(&mut msg, "argument ");
    push_decimal(&mut msg, k as u128);
    push_str(&mut msg, " to '");
    push_str(&mut msg, name.as_str());
    push_str(&mut msg, "': expected ");
    push_type_debug(&mut msg, &classify_type(expected));
    push_str(&mut msg, ", got ");
    push_type_debug(&mut msg, &classify_type(got));
    proof {
        assert(msg@ =~= arg_msg(k as nat, name@, *expected, *got));
    }
    SemanticError { msg, pos }
}

impl Analyzer {
    /// The variable `name`, which must be declared and initialized (see
    /// [`read_var`]).
    fn initialized_var(&self, name: &String, pos: usize) -> (r: Result<&VarInfo, SemanticError>)
        ensures
            match r {
                Ok(info) => read_var(self.model(), name@, pos) == Ok::<VarInfo, ErrorModel>(*info),
                Err(e) => read_var(self.model(), name@, pos) == Err::<VarInfo, ErrorModel>(err_model(e)),
            },
    {
        match self.lookup_var(name.as_str()) {
            None => Err(name_error("use of undeclared variable '", name, "'", pos)),
            Some(info) => if !info.initialized {
                Err(name_error("use of uninitialized variable '", name, "'", pos))
            } else {
                Ok(info)
            },
        }
    }

    /// Analyse an expression (see [`expr_spec`]); the analyzer is unchanged.
    pub fn analyze_expr(&self, expr: &Expr) -> (r: Result<SemanticExpr, SemanticError>)
        ensures
            expr_result(r) == expr_spec(self.model(), *expr),
        decreases *expr, 0nat,
    {
        match expr {
            Expr::Val(value) => Ok(SemanticExpr {
                ty: semantic_type_from_value(value),
                kind: SemanticExprKind::Value(semantic_value_from_ast(value, &self.enums)),
            }),
            Expr::Ident(name, pos) => match self.initialized_var(name, *pos) {
                Err(e) => Err(e),
                Ok(info) => Ok(SemanticExpr {
                    ty: binding_type(info),
                    kind: SemanticExprKind::VarRef { binding: info.binding, name: name.clone() },
                }),
            },
            Expr::DotAccess(container, field) => match self.initialized_var(container, 0) {
                Err(e) => Err(e),
                Ok(info) => Ok(SemanticExpr {
                    ty: SemanticType::I128,
                    kind: SemanticExprKind::DotAccess {
                        binding: Some(info.binding),
                        container: container.clone(),
                        field: field.clone(),
                    },
                }),
            },
            Expr::HandleNew(inner, pos) => match self.analyze_expr(inner) {
                Err(e) => Err(e),
                Ok(v) => if matches!(v.ty, SemanticType::StrRef) {
                    Err(text_error("cannot store a StrRef in a Handle — use an owned str instead", *pos))
                } else {
                    Ok(SemanticExpr {
                        ty: SemanticType::Handle(Box::new(SemanticType::I128)),
                        kind: SemanticExprKind::HandleNew { value: Box::new(v), pos: *pos },
                    })
                },
            },
            Expr::HandleVal(name, pos) => match self.initialized_var(name, *pos) {
                Err(e) => Err(e),
                Ok(info) => Ok(SemanticExpr {
                    ty: SemanticType::I128,
                    kind: SemanticExprKind::HandleVal { binding: info.binding, name: name.clone(), pos: *pos },
                }),
            },
            Expr::HandleDrop(name, pos) => match self.initialized_var(name, *pos) {
                Err(e) => Err(e),
                Ok(info) => Ok(SemanticExpr {
                    ty: SemanticType::Handle(Box::new(SemanticType::I128)),
                    kind: SemanticExprKind::HandleDrop { binding: info.binding, name: name.clone(), pos: *pos },
                }),
            },
            Expr::Call(name, args, pos) => self.analyze_call(name, args, *pos),
            Expr::Range(start, end, inclusive) => match self.analyze_expr(start) {
                Err(e) => Err(e),
                Ok(a) => match self.analyze_expr(end) {
                    Err(e) => Err(e),
                    Ok(b) => Ok(SemanticExpr {
                        ty: SemanticType::I128,
                        kind: SemanticExprKind::Range {
                            start: Box::new(a),
                            end: Box::new(b),
                            inclusive: *inclusive,
                        },
                    }),
                },
            },
            Expr::Unary(op, inner, pos) => match self.analyze_expr(inner) {
                Err(e) => Err(e),
                Ok(a) => {
                    let ty = a.ty.clone();
                    Ok(SemanticExpr { ty, kind: SemanticExprKind::Unary { op: *op, expr: Box::new(a), pos: *pos } })
                },
            },
            Expr::Bin(lhs, op, op_pos, rhs) => match self.analyze_expr(lhs) {
                Err(e) => Err(e),
                Ok(a) => match self.analyze_expr(rhs) {
                    Err(e) => Err(e),
                    Ok(b) => analyze_binary(a, *op, *op_pos, b),
                },
            },
        }
    }
    /// The type argument `i` of a call of `f` is checked against (see
    /// [`expected_ty`]).
    fn expected_arg_type(f: &FunctionInfo, tmap: &Vec<(String, SemanticType)>, i: usize) -> (r: Option<SemanticType>)
        ensures
            r == expected_ty(crate::frontend::model::func_info_model(*f), tmap@, i as int),
    {
        if i < f.params.len() {
            match &f.params[i].ty {
                None => None,
                Some(t) => match t {
                    SemanticType::TypeParam(n) => match key_position(tmap, n.as_str()) {
                        Some(j) => Some(tmap[j].1.clone()),
                        None => Some(t.clone()),
                    },
                    _ => Some(t.clone()),
                },
            }
        } else {
            None
        }
    }

    /// Resolve the variables of a `copy_into` argument (see
    /// [`resolve_into`]).
    fn resolve_copy_into(&self, names: &Vec<String>, pos: usize) -> (r: Result<Vec<ResolvedBinding>, SemanticError>)
        ensures
            match r {
                Ok(v) => resolve_into(self.model(), names@, 0, Seq::empty(), pos) == Ok::<Seq<ResolvedBinding>, ErrorModel>(v@),
                Err(e) => resolve_into(self.model(), names@, 0, Seq::empty(), pos) == Err::<Seq<ResolvedBinding>, ErrorModel>(err_model(e)),
            },
    {
        let mut out: Vec<ResolvedBinding> = Vec::new();
        let mut i: usize = 0;
        while i < names.len()
            invariant
                i <= names@.len(),
                resolve_into(self.model(), names@, 0, Seq::empty(), pos) == resolve_into(self.model(), names@, i as int, out@, pos),
            decreases names@.len() - i,
        {
            let n = &names[i];
            match self.lookup_var(n.as_str()) {
                None => return Err(name_error("copy_into variable '", n, "' has not been declared", pos)),
                Some(info) => {
                    if !info.initialized {
                        return Err(name_error("copy_into variable '", n, "' is not initialized", pos));
                    }
                    out.push(ResolvedBinding { binding: info.binding, name: n.clone() });
                },
            }
            i = i + 1;
        }
        Ok(out)
    }

    /// Analyse a call (see [`call_spec`]); the analyzer is unchanged.
    pub fn analyze_call(&self, name: &String, args: &Vec<CallArg>, pos: usize) -> (r: Result<SemanticExpr, SemanticError>)
        ensures
            expr_result(r) == call_spec(self.model(), *name, args@, pos),
        decreases args@, args@.len() + 1,
    {
        let ghost m = self.model();
        if str_eq_string("is_known", name) {
            if args.len() > 0 {
                match &args[0] {
                    CallArg::Expr(e) => {
                        match self.analyze_expr(e) {
                            Err(x) => {
                                return Err(x);
                            },
                            Ok(a) => {
                                let mut v: Vec<SemanticCallArg> = Vec::new();
                                v.push(SemanticCallArg::Expr(a));
                                proof {
                                    lemma_args_model_push(Seq::empty(), v@[0]);
                                    assert(Seq::<SemanticCallArg>::empty().push(v@[0]) =~= v@);
                                    assert(args_model(Seq::empty()) =~= Seq::<ArgModel>::empty());
                                }
                                return Ok(SemanticExpr {
                                    ty: SemanticType::Bool,
                                    kind: SemanticExprKind::Call {
                                        callee: name.clone(),
                                        function: FunctionId(4294967295),
                                        args: v,
                                    },
                                });
                            },
                        }
                    },
                    _ => {},
                }
            }
            return Err(name_error("call to undefined function '", name, "'", pos));
        }
        proof {
            assert(keys(m.funcs) =~= keys(self.funcs@));
        }
        let idx = match key_position(&self.funcs, name.as_str()) {
            None => {
                return Err(name_error("call to undefined function '", name, "'", pos));
            },
            Some(i) => i,
        };
        let f = &self.funcs[idx].1;
        let ghost fm = crate::frontend::model::func_info_model(*f);
        assert(m.funcs[idx as int].1 == fm);
        assert(key_index(keys(self.funcs@), name@, 0) == Some(idx as int));
        assert(key_index(keys(m.funcs), name@, 0) == Some(idx as int));
        assert(crate::frontend::model::assoc_get(m.funcs, name@) == Some(fm));
        if args.len() != f.params.len() {
            return Err(arity_error(name, f.params.len(), args.len(), pos));
        }
        let mut tmap: Vec<(String, SemanticType)> = Vec::new();
        if f.type_params.len() > 0 {
            let mut i: usize = 0;
            while i < args.len()
                invariant
                    i <= args@.len(),
                    args@.len() == fm.params.len(),
                    fm == crate::frontend::model::func_info_model(*f),
                    m == self.model(),
                    name@ != "is_known"@,
                    crate::frontend::model::assoc_get(m.funcs, name@) == Some(fm),
                    fm.type_params.len() > 0,
                    bind_type_params(m, fm, args@, 0, Seq::empty(), pos) == bind_type_params(m, fm, args@, i as int, tmap@, pos),
                decreases args@.len() - i,
            {
                match &f.params[i].ty {
                    Some(SemanticType::TypeParam(t)) => match &args[i] {
                        CallArg::Expr(e) => {
                            let a = match self.analyze_expr(e) {
                                Err(x) => {
                                    return Err(x);
                                },
                                Ok(a) => a,
                            };
                            proof {
                                assert(keys(tmap@) =~= keys(tmap@));
                            }
                            match key_position(&tmap, t.as_str()) {
                                Some(j) => {
                                    if !types_compatible(&tmap[j].1, &a.ty) {
                                        return Err(type_param_error(t, &tmap[j].1, i + 1, &a.ty, pos));
                                    }
                                },
                                None => {
                                    tmap.push((t.clone(), a.ty.clone()));
                                },
                            }
                        },
                        _ => {},
                    },
                    _ => {},
                }
                i = i + 1;
            }
        }
        let mut out: Vec<SemanticCallArg> = Vec::new();
        let mut i: usize = 0;
        while i < args.len()
            invariant
                i <= args@.len(),
                fm == crate::frontend::model::func_info_model(*f),
                m == self.model(),
                name@ != "is_known"@,
                crate::frontend::model::assoc_get(m.funcs, name@) == Some(fm),
                args@.len() == fm.params.len(),
                (if fm.type_params.len() == 0 {
                    Ok(Seq::empty())
                } else {
                    bind_type_params(m, fm, args@, 0, Seq::empty(), pos)
                }) == Ok::<Seq<(String, SemanticType)>, ErrorModel>(tmap@),
                resolve_args(m, *name, fm, tmap@, args@, 0, Seq::empty(), pos) == resolve_args(m, *name, fm, tmap@, args@, i as int, args_model(out@), pos),
            decreases args@.len() - i,
        {
            let expected = Self::expected_arg_type(f, &tmap, i);
            let arg = match &args[i] {
                CallArg::Expr(e) => {
                    let a = match self.analyze_expr(e) {
                        Err(x) => {
                            return Err(x);
                        },
                        Ok(a) => a,
                    };
                    match expected {
                        Some(t) => {
                            if !types_compatible(&t, &a.ty) {
                                return Err(arg_error(i + 1, name, &t, &a.ty, pos));
                            }
                            SemanticCallArg::Expr(insert_cast_if_needed(a, &t))
                        },
                        None => SemanticCallArg::Expr(a),
                    }
                },
                CallArg::Copy(outer) => match self.lookup_var(outer.as_str()) {
                    None => {
                        return Err(name_error("'.copy' argument '", outer, "' has not been declared", pos));
                    },
                    Some(info) => {
                        if !info.initialized {
                            return Err(name_error("'.copy' argument '", outer, "' is not initialized", pos));
                        }
                        SemanticCallArg::Copy { binding: info.binding, name: outer.clone() }
                    },
                },
                CallArg::CopyFree(outer) => match self.lookup_var(outer.as_str()) {
                    None => {
                        return Err(name_error("'.copy' argument '", outer, "' has not been declared", pos));
                    },
                    Some(info) => {
                        if !info.initialized {
                            return Err(name_error("'.copy' argument '", outer, "' is not initialized", pos));
                        }
                        SemanticCallArg::CopyFree { binding: info.binding, name: outer.clone() }
                    },
                },
                CallArg::CopyInto(outers) => match self.resolve_copy_into(outers, pos) {
                    Err(x) => {
                        return Err(x);
                    },
                    Ok(rs) => SemanticCallArg::CopyInto(rs),
                },
            };
            proof {
                lemma_args_model_push(out@, arg);
            }
            out.push(arg);
            i = i + 1;
        }
        let ty = match &f.ret_ty {
            Some(t) => t.clone(),
            None => SemanticType::I128,
        };
        Ok(SemanticExpr {
            ty,
            kind: SemanticExprKind::Call { callee: name.clone(), function: f.id, args: out },
        })
    }
}

} // verus!

verus! {

// ── Enum declarations ────────────────────────────────────────────────────────

fn clone_strings(v: &Vec<String>) -> (r: Vec<String>)
    ensures
        r@ == v@,
{
    let mut r: Vec<String> = Vec::new();
    let mut i: usize = 0;
    while i < v.len()
        invariant
            i <= v@.len(),
            r@ == v@.take(i as int),
        decreases v@.len() - i,
    {
        r.push(v[i].clone());
        proof {
            assert(v@.take(i + 1) =~= v@.take(i as int).push(v@[i as int]));
        }
        i = i + 1;
    }
    proof {
        assert(v@.take(v@.len() as int) =~= v@);
    }
    r
}

fn clone_groups(g: &Vec<(String, Vec<String>)>) -> (r: Vec<(String, Vec<String>)>)
    ensures
        groups_model(r@) == groups_model(g@),
{
    let mut r: Vec<(String, Vec<String>)> = Vec::new();
    let mut i: usize = 0;
    while i < g.len()
        invariant
            i <= g@.len(),
            groups_model(r@) == groups_model(g@.take(i as int)),
        decreases g@.len() - i,
    {
        let item = (g[i].0.clone(), clone_strings(&g[i].1));
        proof {
            assert(groups_model(r@.push(item)) =~= groups_model(r@).push((item.0, item.1@)));
            assert(groups_model(g@.take(i + 1)) =~= groups_model(g@.take(i as int)).push((g@[i as int].0, g@[i as int].1@)));
        }
        r.push(item);
        i = i + 1;
    }
    proof {
        assert(g@.take(g@.len() as int) =~= g@);
    }
    r
}

fn clone_supers(g: &Vec<(String, Vec<(String, Vec<String>)>)>) -> (r: Vec<(String, Vec<(String, Vec<String>)>)>)
    ensures
        supers_model(r@) == supers_model(g@),
{
    let mut r: Vec<(String, Vec<(String, Vec<String>)>)> = Vec::new();
    let mut i: usize = 0;
    while i < g.len()
        invariant
            i <= g@.len(),
            supers_model(r@) == supers_model(g@.take(i as int)),
        decreases g@.len() - i,
    {
        let item = (g[i].0.clone(), clone_groups(&g[i].1));
        proof {
            assert(supers_model(r@.push(item)) =~= supers_model(r@).push((item.0, groups_model(item.1@))));
            assert(supers_model(g@.take(i + 1)) =~= supers_model(g@.take(i as int)).push(
                (g@[i as int].0, groups_model(g@[i as int].1@)),
            ));
        }
        r.push(item);
        i = i + 1;
    }
    proof {
        assert(g@.take(g@.len() as int) =~= g@);
    }
    r
}

fn clone_opt_string(o: &Option<String>) -> (r: Option<String>)
    ensures
        r == *o,
{
    match o {
        Some(s) => Some(s.clone()),
        None => None,
    }
}

fn clone_ids(v: &Vec<EnumVariantId>) -> (r: Vec<EnumVariantId>)
    ensures
        r@ == v@,
{
    let mut r: Vec<EnumVariantId> = Vec::new();
    let mut i: usize = 0;
    while i < v.len()
        invariant
            i <= v@.len(),
            r@ == v@.take(i as int),
        decreases v@.len() - i,
    {
        r.push(v[i]);
        proof {
            assert(v@.take(i + 1) =~= v@.take(i as int).push(v@[i as int]));
        }
        i = i + 1;
    }
    proof {
        assert(v@.take(v@.len() as int) =~= v@);
    }
    r
}

fn clone_enum(e: &SemanticEnum) -> (r: SemanticEnum)
    ensures
        enum_model(r) == enum_model(*e),
{
    let mut variants: Vec<SemanticEnumVariant> = Vec::new();
    let mut i: usize = 0;
    while i < e.variants.len()
        invariant
            i <= e.variants@.len(),
            variants@ == e.variants@.take(i as int),
        decreases e.variants@.len() - i,
    {
        let v = &e.variants[i];
        variants.push(SemanticEnumVariant {
            id: v.id,
            name: v.name.clone(),
            enum_id: v.enum_id,
            group: clone_opt_string(&v.group),
        });
        proof {
            assert(e.variants@.take(i + 1) =~= e.variants@.take(i as int).push(e.variants@[i as int]));
        }
        i = i + 1;
    }
    let mut groups: Vec<SemanticEnumGroup> = Vec::new();
    let mut j: usize = 0;
    while j < e.groups.len()
        invariant
            j <= e.groups@.len(),
            crate::frontend::model::enum_groups_model(groups@) == crate::frontend::model::enum_groups_model(
                e.groups@.take(j as int),
            ),
        decreases e.groups@.len() - j,
    {
        let g = SemanticEnumGroup { name: e.groups[j].name.clone(), variants: clone_ids(&e.groups[j].variants) };
        proof {
            assert(crate::frontend::model::enum_groups_model(groups@.push(g)) =~= crate::frontend::model::enum_groups_model(
                groups@,
            ).push((g.name, g.variants@)));
            assert(crate::frontend::model::enum_groups_model(e.groups@.take(j + 1))
                =~= crate::frontend::model::enum_groups_model(e.groups@.take(j as int)).push(
                (e.groups@[j as int].name, e.groups@[j as int].variants@),
            ));
        }
        groups.push(g);
        j = j + 1;
    }
    proof {
        assert(e.variants@.take(e.variants@.len() as int) =~= e.variants@);
        assert(e.groups@.take(e.groups@.len() as int) =~= e.groups@);
    }
    SemanticEnum {
        id: e.id,
        name: e.name.clone(),
        declared_ty: e.declared_ty.clone(),
        variants,
        groups,
    }
}

/// Append `(v, Some(tag))` for each name `v` of `vs`.
fn push_tagged(decl: &mut Vec<(String, Option<String>)>, vs: &Vec<String>, tag: &String)
    ensures
        final(decl)@ == old(decl)@ + vs@.map_values(|v: String| (v, Some(*tag))),
{
    let ghost start = decl@;
    let mut i: usize = 0;
    while i < vs.len()
        invariant
            i <= vs@.len(),
            decl@ == start + vs@.take(i as int).map_values(|v: String| (v, Some(*tag))),
        decreases vs@.len() - i,
    {
        decl.push((vs[i].clone(), Some(tag.clone())));
        proof {
            assert(vs@.take(i + 1).map_values(|v: String| (v, Some(*tag))) =~= vs@.take(i as int).map_values(
                |v: String| (v, Some(*tag)),
            ).push((vs@[i as int], Some(*tag))));
        }
        i = i + 1;
    }
    proof {
        assert(vs@.take(vs@.len() as int) =~= vs@);
    }
}

/// Append the variants of each group, tagged with the group.
fn push_group_variants(decl: &mut Vec<(String, Option<String>)>, gs: &Vec<(String, Vec<String>)>)
    ensures
        final(decl)@ == old(decl)@ + crate::frontend::rules::groups_flat(groups_model(gs@)),
{
    let ghost start = decl@;
    let mut i: usize = 0;
    while i < gs.len()
        invariant
            i <= gs@.len(),
            decl@ == start + crate::frontend::rules::groups_flat(groups_model(gs@.take(i as int))),
        decreases gs@.len() - i,
    {
        let ghost before = decl@;
        push_tagged(decl, &gs[i].1, &gs[i].0);
        proof {
            let gm = groups_model(gs@.take(i + 1));
            assert(gm.drop_last() =~= groups_model(gs@.take(i as int)));
            assert(gm.last() == (gs@[i as int].0, gs@[i as int].1@));
            assert(decl@ =~= start + crate::frontend::rules::groups_flat(gm));
        }
        i = i + 1;
    }
    proof {
        assert(gs@.take(gs@.len() as int) =~= gs@);
    }
}


/// The ids of the named variants that have one (see [`ids_of`]).
fn ids_for(ids: &Vec<(String, EnumVariantId)>, names: &Vec<String>) -> (r: Vec<EnumVariantId>)
    ensures
        r@ == crate::frontend::rules::ids_of(ids@, names@),
{
    let mut r: Vec<EnumVariantId> = Vec::new();
    let mut i: usize = 0;
    while i < names.len()
        invariant
            i <= names@.len(),
            r@ == crate::frontend::rules::ids_of(ids@, names@.take(i as int)),
        decreases names@.len() - i,
    {
        proof {
            assert(names@.take(i + 1).drop_last() =~= names@.take(i as int));
        }
        match key_position(ids, names[i].as_str()) {
            Some(p) => {
                r.push(ids[p].1);
                proof {
                    assert(crate::frontend::model::assoc_get(ids@, names@[i as int]@) == Some(ids@[p as int].1));
                    assert(r@ =~= crate::frontend::rules::ids_of(ids@, names@.take(i + 1)));
                }
            },
            None => {
                proof {
                    assert(r@ =~= crate::frontend::rules::ids_of(ids@, names@.take(i + 1)));
                }
            },
        }
        i = i + 1;
    }
    proof {
        assert(names@.take(names@.len() as int) =~= names@);
    }
    r
}

/// Append each group with the ids of its variants.
fn push_group_defs(out: &mut Vec<SemanticEnumGroup>, ids: &Vec<(String, EnumVariantId)>, gs: &Vec<(String, Vec<String>)>)
    ensures
        crate::frontend::model::enum_groups_model(final(out)@) == crate::frontend::model::enum_groups_model(old(out)@)
            + crate::frontend::rules::group_defs(ids@, groups_model(gs@)),
{
    let ghost start = crate::frontend::model::enum_groups_model(out@);
    let mut i: usize = 0;
    while i < gs.len()
        invariant
            i <= gs@.len(),
            crate::frontend::model::enum_groups_model(out@) == start + crate::frontend::rules::group_defs(
                ids@,
                groups_model(gs@.take(i as int)),
            ),
        decreases gs@.len() - i,
    {
        let g = SemanticEnumGroup { name: gs[i].0.clone(), variants: ids_for(ids, &gs[i].1) };
        proof {
            assert(crate::frontend::model::enum_groups_model(out@.push(g))
                =~= crate::frontend::model::enum_groups_model(out@).push((g.name, g.variants@)));
            assert(crate::frontend::rules::group_defs(ids@, groups_model(gs@.take(i + 1)))
                =~= crate::frontend::rules::group_defs(ids@, groups_model(gs@.take(i as int))).push(
                (g.name, g.variants@),
            ));
        }
        out.push(g);
        i = i + 1;
    }
    proof {
        assert(gs@.take(gs@.len() as int) =~= gs@);
    }
}

impl Analyzer {
    /// Declare an enum (see [`crate::frontend::rules::declare_enum_spec`]).
    pub fn declare_enum(
        &mut self,
        name: &String,
        variants: &Vec<String>,
        groups: &Vec<(String, Vec<String>)>,
        super_groups: &Vec<(String, Vec<(String, Vec<String>)>)>,
    ) -> (e: SemanticEnum)
        requires
            old(self).model().next_enum < u32::MAX,
            old(self).model().next_variant + crate::frontend::rules::declared_variants(
                variants@,
                groups_model(groups@),
                supers_model(super_groups@),
            ).len() <= u32::MAX,
        ensures
            (enum_model(e), final(self).model()) == crate::frontend::rules::declare_enum_spec(
                old(self).model(),
                *name,
                variants@,
                groups_model(groups@),
                supers_model(super_groups@),
            ),
    {
        let ghost m0 = self.model();
        let ghost gm = groups_model(groups@);
        let ghost sm = supers_model(super_groups@);
        let enum_id = self.fresh_enum();
        let mut decl: Vec<(String, Option<String>)> = Vec::new();
        let mut i: usize = 0;
        while i < variants.len()
            invariant
                i <= variants@.len(),
                decl@ == variants@.take(i as int).map_values(|v: String| (v, None::<String>)),
            decreases variants@.len() - i,
        {
            decl.push((variants[i].clone(), None));
            proof {
                assert(variants@.take(i + 1).map_values(|v: String| (v, None::<String>)) =~= variants@.take(
                    i as int,
                ).map_values(|v: String| (v, None::<String>)).push((variants@[i as int], None::<String>)));
            }
            i = i + 1;
        }
        proof {
            assert(variants@.take(variants@.len() as int) =~= variants@);
        }
        let ghost vpart = decl@;
        push_group_variants(&mut decl, groups);
        let mut k: usize = 0;
        while k < super_groups.len()
            invariant
                k <= super_groups@.len(),
                sm == supers_model(super_groups@),
                decl@ == vpart + crate::frontend::rules::groups_flat(gm) + crate::frontend::rules::supers_flat(
                    supers_model(super_groups@.take(k as int)),
                ),
            decreases super_groups@.len() - k,
        {
            push_group_variants(&mut decl, &super_groups[k].1);
            proof {
                let s1 = supers_model(super_groups@.take(k + 1));
                assert(s1.drop_last() =~= supers_model(super_groups@.take(k as int)));
                assert(s1.last().1 == groups_model(super_groups@[k as int].1@));
                assert(decl@ =~= vpart + crate::frontend::rules::groups_flat(gm) + crate::frontend::rules::supers_flat(s1));
            }
            k = k + 1;
        }
        proof {
            assert(super_groups@.take(super_groups@.len() as int) =~= super_groups@);
            assert(decl@ =~= crate::frontend::rules::declared_variants(variants@, gm, sm));
        }
        let ghost start = self.model().next_variant;
        let ghost m1 = self.model();
        let mut ids: Vec<(String, EnumVariantId)> = Vec::new();
        let mut sem_variants: Vec<SemanticEnumVariant> = Vec::new();
        let mut j: usize = 0;
        while j < decl.len()
            invariant
                j <= decl@.len(),
                start == m0.next_variant,
                start + decl@.len() <= u32::MAX,
                enum_id == EnumId(m0.next_enum),
                ids@ == crate::frontend::rules::variant_ids(decl@, start, j as int),
                sem_variants@ =~= Seq::new(
                    j as nat,
                    |q: int|
                        SemanticEnumVariant {
                            id: EnumVariantId((start + q) as u32),
                            name: decl@[q].0,
                            enum_id,
                            group: decl@[q].1,
                        },
                ),
                self.model() == (AnalyzerModel { next_variant: (start + j) as u32, ..m1 }),
            decreases decl@.len() - j,
        {
            let vid = self.fresh_enum_variant();
            let vname = &decl[j].0;
            match key_position(&ids, vname.as_str()) {
                Some(p) => {
                    let mut entry = (String::new(), EnumVariantId(0));
                    ids.set_and_swap(p, &mut entry);
                    let (k0, _) = entry;
                    let mut ne = (k0, vid);
                    ids.set_and_swap(p, &mut ne);
                },
                None => {
                    ids.push((vname.clone(), vid));
                },
            }
            sem_variants.push(SemanticEnumVariant {
                id: vid,
                name: vname.clone(),
                enum_id,
                group: clone_opt_string(&decl[j].1),
            });
            proof {
                assert(ids@ =~= crate::frontend::rules::variant_ids(decl@, start, j + 1));
            }
            j = j + 1;
        }
        let mut sem_groups: Vec<SemanticEnumGroup> = Vec::new();
        push_group_defs(&mut sem_groups, &ids, groups);
        let mut k2: usize = 0;
        while k2 < super_groups.len()
            invariant
                k2 <= super_groups@.len(),
                crate::frontend::model::enum_groups_model(sem_groups@) == crate::frontend::rules::group_defs(ids@, gm)
                    + crate::frontend::rules::super_group_defs(ids@, supers_model(super_groups@.take(k2 as int))),
            decreases super_groups@.len() - k2,
        {
            push_group_defs(&mut sem_groups, &ids, &super_groups[k2].1);
            proof {
                let s1 = supers_model(super_groups@.take(k2 + 1));
                assert(s1.drop_last() =~= supers_model(super_groups@.take(k2 as int)));
                assert(s1.last().1 == groups_model(super_groups@[k2 as int].1@));
                assert(crate::frontend::model::enum_groups_model(sem_groups@) =~= crate::frontend::rules::group_defs(ids@, gm)
                    + crate::frontend::rules::super_group_defs(ids@, s1));
            }
            k2 = k2 + 1;
        }
        proof {
            assert(super_groups@.take(super_groups@.len() as int) =~= super_groups@);
        }
        let ghost ids_v = ids@;
        let info = EnumInfo { id: enum_id, variants: ids, groups: clone_groups(groups), super_groups: clone_supers(super_groups) };
        let ghost before = self.enums@;
        proof {
            assert(keys(enums_model(before)) =~= keys(before));
        }
        match key_position(&self.enums, name.as_str()) {
            Some(p) => {
                let mut entry = (String::new(), EnumInfo { id: EnumId(0), variants: Vec::new(), groups: Vec::new(), super_groups: Vec::new() });
                self.enums.set_and_swap(p, &mut entry);
                let (k0, _) = entry;
                let mut ne = (k0, info);
                self.enums.set_and_swap(p, &mut ne);
                proof {
                    assert(enums_model(self.enums@) =~= enums_model(before).update(
                        p as int,
                        (enums_model(before)[p as int].0, crate::frontend::model::enum_info_model(info)),
                    ));
                }
            },
            None => {
                self.enums.push((name.clone(), info));
                proof {
                    assert(enums_model(self.enums@) =~= enums_model(before).push(
                        (*name, crate::frontend::model::enum_info_model(info)),
                    ));
                }
            },
        }
        let e = SemanticEnum {
            id: enum_id,
            name: name.clone(),
            declared_ty: Type::Enum(name.clone()),
            variants: sem_variants,
            groups: sem_groups,
        };
        let ghost defs_before = self.enum_defs@;
        self.enum_defs.push(clone_enum(&e));
        proof {
            assert(self.enum_defs@.map_values(|d: SemanticEnum| enum_model(d)) =~= defs_before.map_values(
                |d: SemanticEnum| enum_model(d),
            ).push(enum_model(e)));
            let decl_s = crate::frontend::rules::declared_variants(variants@, gm, sm);
            assert(decl@ == decl_s);
            assert(e.variants@ =~= Seq::new(
                decl_s.len(),
                |q: int|
                    SemanticEnumVariant {
                        id: EnumVariantId((start + q) as u32),
                        name: decl_s[q].0,
                        enum_id,
                        group: decl_s[q].1,
                    },
            ));
        }
        e
    }
}

} // verus!

verus! {

// ── Statements ───────────────────────────────────────────────────────────────

fn clone_opt_ty(o: &Option<SemanticType>) -> (r: Option<SemanticType>)
    ensures
        r == *o,
{
    match o {
        Some(t) => Some(t.clone()),
        None => None,
    }
}

fn clone_opt_type(o: &Option<Type>) -> (r: Option<Type>)
    ensures
        r == *o,
{
    match o {
        Some(t) => Some(t.clone()),
        None => None,
    }
}

fn clone_params(v: &Vec<SemanticParam>) -> (r: Vec<SemanticParam>)
    ensures
        r@ == v@,
{
    let mut r: Vec<SemanticParam> = Vec::new();
    let mut i: usize = 0;
    while i < v.len()
        invariant
            i <= v@.len(),
            r@ == v@.take(i as int),
        decreases v@.len() - i,
    {
        let p = &v[i];
        r.push(SemanticParam { binding: p.binding, name: p.name.clone(), kind: p.kind, ty: clone_opt_ty(&p.ty) });
        proof {
            assert(v@.take(i + 1) =~= v@.take(i as int).push(v@[i as int]));
        }
        i = i + 1;
    }
    proof {
        assert(v@.take(v@.len() as int) =~= v@);
    }
    r
}

/// An error whose message is `prefix` and a type as diagnostics name it.
fn type_error(prefix: &str, t: &SemanticType, pos: usize) -> (e: SemanticError)
    ensures
        e.msg@ == prefix@ + type_debug(classify(*t)),
        e.pos == pos,
{
    let mut msg = String::new();
    push_str(&mut msg, prefix);
    push_type_debug(&mut msg, &classify_type(t));
    proof {
        assert(msg@ =~= prefix@ + type_debug(classify(*t)));
    }
    SemanticError { msg, pos }
}

fn handler_count_error(g: &String, subs: usize, handlers: usize, pos: usize) -> (e: SemanticError)
    ensures
        err_model(e) == (ErrorModel {
            msg: crate::frontend::rules::handler_count_msg(g@, subs as nat, handlers as nat),
            pos,
        }),
{
    let mut msg = String::new();
    push_str(&mut msg, "super-group '");
    push_str(&mut msg, g.as_str());
    push_str(&mut msg, "' has ");
    push_decimal(&mut msg, subs as u128);
    push_str(&mut msg, " sub-groups but ");
    push_decimal(&mut msg, handlers as u128);
    push_str(&mut msg, " handlers were provided");
    proof {
        assert(msg@ =~= crate::frontend::rules::handler_count_msg(g@, subs as nat, handlers as nat));
    }
    SemanticError { msg, pos }
}

fn placeholder_error(k: usize, sub: &String, pos: usize) -> (e: SemanticError)
    ensures
        err_model(e) == (ErrorModel { msg: crate::frontend::rules::placeholder_msg(k as nat, sub@), pos }),
{
    let mut msg = String::new();
    push_str(&mut msg, "{_} at position ");
    push_decimal(&mut msg, k as u128);
    push_str(&mut msg, " covers sub-group '");
    push_str(&mut msg, sub.as_str());
    push_str(&mut msg, "' but no explicit arm for '");
    push_str(&mut msg, sub.as_str());
    push_str(&mut msg, "' exists in this when block");
    proof {
        assert(msg@ =~= crate::frontend::rules::placeholder_msg(k as nat, sub@));
    }
    SemanticError { msg, pos }
}

/// Whether `v` holds `n`.
fn has_string(v: &Vec<String>, n: &String) -> (r: bool)
    ensures
        r == has_name(v@, n@),
{
    let mut i: usize = 0;
    while i < v.len()
        invariant
            i <= v@.len(),
            forall|k: int| 0 <= k < i ==> v@[k]@ != n@,
        decreases v@.len() - i,
    {
        if str_eq_string(n.as_str(), &v[i]) {
            return true;
        }
        i = i + 1;
    }
    false
}

/// The group names that arms match explicitly (see [`explicit_groups`]).
fn explicit_group_names(arms: &Vec<WhenArm>) -> (r: Vec<String>)
    ensures
        r@ == explicit_groups(arms@),
{
    let mut r: Vec<String> = Vec::new();
    let mut i: usize = 0;
    while i < arms.len()
        invariant
            i <= arms@.len(),
            r@ == explicit_groups(arms@.take(i as int)),
        decreases arms@.len() - i,
    {
        proof {
            assert(arms@.take(i + 1).drop_last() =~= arms@.take(i as int));
        }
        match &arms[i].pattern {
            WhenPattern::Group(_, n) => {
                r.push(n.clone());
                proof {
                    assert(r@ =~= explicit_groups(arms@.take(i + 1)));
                }
            },
            _ => {
                proof {
                    assert(r@ =~= explicit_groups(arms@.take(i + 1)));
                }
            },
        }
        i = i + 1;
    }
    proof {
        assert(arms@.take(arms@.len() as int) =~= arms@);
    }
    r
}

/// Whether `g` names a sub-group of one of `supers` (see [`sub_known`]).
fn sub_group_known(supers: &Vec<(String, Vec<(String, Vec<String>)>)>, g: &String) -> (r: bool)
    ensures
        r == sub_known(supers_model(supers@), g@, 0),
{
    let ghost sm = supers_model(supers@);
    let mut j: usize = 0;
    while j < supers.len()
        invariant
            j <= supers@.len(),
            sm == supers_model(supers@),
            sub_known(sm, g@, 0) == sub_known(sm, g@, j as int),
        decreases supers@.len() - j,
    {
        proof {
            assert(keys(sm[j as int].1) =~= keys(supers@[j as int].1@));
        }
        if key_position(&supers[j].1, g.as_str()).is_some() {
            return true;
        }
        j = j + 1;
    }
    false
}

impl Analyzer {
    /// Whether some enum knows the group name `g` (see [`group_known`]).
    fn group_known(&self, g: &String) -> (r: bool)
        ensures
            r == group_known(self.model().enums, g@, 0),
    {
        let ghost em = self.model().enums;
        let mut i: usize = 0;
        while i < self.enums.len()
            invariant
                i <= self.enums@.len(),
                em == self.model().enums,
                group_known(em, g@, 0) == group_known(em, g@, i as int),
            decreases self.enums@.len() - i,
        {
            let info = &self.enums[i].1;
            proof {
                assert(em[i as int].1 == crate::frontend::model::enum_info_model(*info));
                assert(keys(groups_model(info.groups@)) =~= keys(info.groups@));
                assert(keys(supers_model(info.super_groups@)) =~= keys(info.super_groups@));
            }
            let known = key_position(&info.groups, g.as_str()).is_some()
                || key_position(&info.super_groups, g.as_str()).is_some()
                || sub_group_known(&info.super_groups, g);
            if known {
                return true;
            }
            i = i + 1;
        }
        false
    }

    /// The sub-group names of the super-group `g` (see [`super_subs`]).
    fn super_subs(&self, g: &String) -> (r: Option<Vec<String>>)
        ensures
            match r {
                Some(v) => super_subs(self.model().enums, g@, 0) == Some(v@),
                None => super_subs(self.model().enums, g@, 0) is None,
            },
    {
        let ghost em = self.model().enums;
        let mut i: usize = 0;
        while i < self.enums.len()
            invariant
                i <= self.enums@.len(),
                em == self.model().enums,
                super_subs(em, g@, 0) == super_subs(em, g@, i as int),
            decreases self.enums@.len() - i,
        {
            let info = &self.enums[i].1;
            proof {
                assert(em[i as int].1 == crate::frontend::model::enum_info_model(*info));
                assert(keys(supers_model(info.super_groups@)) =~= keys(info.super_groups@));
            }
            match key_position(&info.super_groups, g.as_str()) {
                Some(j) => {
                    let subs = &info.super_groups[j].1;
                    let mut names: Vec<String> = Vec::new();
                    let mut k: usize = 0;
                    while k < subs.len()
                        invariant
                            k <= subs@.len(),
                            names@ == subs@.take(k as int).map_values(|p: (String, Vec<String>)| p.0),
                        decreases subs@.len() - k,
                    {
                        names.push(subs[k].0.clone());
                        proof {
                            assert(subs@.take(k + 1).map_values(|p: (String, Vec<String>)| p.0) =~= subs@.take(
                                k as int,
                            ).map_values(|p: (String, Vec<String>)| p.0).push(subs@[k as int].0));
                        }
                        k = k + 1;
                    }
                    proof {
                        assert(subs@.take(subs@.len() as int) =~= subs@);
                        assert(names@ =~= em[i as int].1.super_groups[j as int].1.map_values(
                            |p: (String, Seq<String>)| p.0,
                        ));
                    }
                    return Some(names);
                },
                None => {},
            }
            i = i + 1;
        }
        None
    }

    /// A `when` pattern after analysis (see [`pattern_model`]).
    pub fn analyze_when_pattern(&self, pattern: &WhenPattern) -> (r: SemanticWhenPattern)
        ensures
            r == pattern_model(*pattern, self.model().enums),
    {
        match pattern {
            WhenPattern::Literal(v) => SemanticWhenPattern::Literal(semantic_value_from_ast(v, &self.enums)),
            WhenPattern::Range(a, b, inclusive) => SemanticWhenPattern::Range(
                semantic_value_from_ast(a, &self.enums),
                semantic_value_from_ast(b, &self.enums),
                *inclusive,
            ),
            WhenPattern::EnumVariant(enum_name, variant_name) => {
                proof {
                    assert(keys(enums_model(self.enums@)) =~= keys(self.enums@));
                }
                let (enum_id, variant_id) = match key_position(&self.enums, enum_name.as_str()) {
                    Some(i) => {
                        let info = &self.enums[i].1;
                        proof {
                            assert(enums_model(self.enums@)[i as int].1 == crate::frontend::model::enum_info_model(*info));
                        }
                        let v = match key_position(&info.variants, variant_name.as_str()) {
                            Some(j) => Some(info.variants[j].1),
                            None => None,
                        };
                        (Some(info.id), v)
                    },
                    None => (None, None),
                };
                SemanticWhenPattern::EnumVariant {
                    enum_name: enum_name.clone(),
                    variant_name: variant_name.clone(),
                    enum_id,
                    variant_id,
                }
            },
            _ => SemanticWhenPattern::Catchall,
        }
    }

    /// Record `info` for the function `name` (replacing an earlier record).
    fn record_function(&mut self, name: &String, info: FunctionInfo)
        ensures
            final(self).model() == (AnalyzerModel {
                funcs: assoc_insert(old(self).model().funcs, *name, func_info_model(info)),
                ..old(self).model()
            }),
    {
        let ghost before = self.funcs@;
        proof {
            assert(keys(funcs_model(before)) =~= keys(before));
        }
        match key_position(&self.funcs, name.as_str()) {
            Some(p) => {
                let mut entry = (
                    String::new(),
                    FunctionInfo { id: FunctionId(0), params: Vec::new(), ret_ty: None, type_params: Vec::new() },
                );
                self.funcs.set_and_swap(p, &mut entry);
                let (k0, _) = entry;
                let mut ne = (k0, info);
                self.funcs.set_and_swap(p, &mut ne);
                proof {
                    assert(funcs_model(self.funcs@) =~= funcs_model(before).update(
                        p as int,
                        (funcs_model(before)[p as int].0, func_info_model(info)),
                    ));
                }
            },
            None => {
                self.funcs.push((name.clone(), info));
                proof {
                    assert(funcs_model(self.funcs@) =~= funcs_model(before).push((*name, func_info_model(info))));
                }
            },
        }
    }

    /// Replace the parameters recorded for the function `name` (see
    /// [`set_params`]).
    fn set_function_params(&mut self, name: &String, params: Vec<SemanticParam>)
        ensures
            final(self).model() == (AnalyzerModel {
                funcs: set_params(old(self).model().funcs, name@, params@),
                ..old(self).model()
            }),
    {
        let ghost before = self.funcs@;
        proof {
            assert(keys(funcs_model(before)) =~= keys(before));
        }
        match key_position(&self.funcs, name.as_str()) {
            Some(p) => {
                let mut entry = (
                    String::new(),
                    FunctionInfo { id: FunctionId(0), params: Vec::new(), ret_ty: None, type_params: Vec::new() },
                );
                self.funcs.set_and_swap(p, &mut entry);
                let (k0, old_info) = entry;
                let ghost oi = old_info;
                let mut ne = (
                    k0,
                    FunctionInfo {
                        id: old_info.id,
                        params,
                        ret_ty: old_info.ret_ty,
                        type_params: old_info.type_params,
                    },
                );
                self.funcs.set_and_swap(p, &mut ne);
                proof {
                    assert(funcs_model(self.funcs@) =~= set_params(funcs_model(before), name@, params@));
                }
            },
            None => {},
        }
    }

    /// Analyse statements in order (see [`stmts_spec`]); the first error
    /// stops them.
    pub fn analyze_stmts(&mut self, stmts: &Vec<Stmt>) -> (r: Result<Vec<SemanticStmt>, SemanticError>)
        requires
            old(self).wf(),
            old(self).model().room(stmts_cost(stmts@, 0)),
        ensures
            final(self).model().scopes.len() == old(self).model().scopes.len(),
            final(self).model().spent(old(self).model(), stmts_cost(stmts@, 0)),
            (stmts_result(r), final(self).model()) == stmts_spec(old(self).model(), stmts@, 0, Seq::empty()),
        decreases stmts@, 0nat,
    {
        let ghost m0 = self.model();
        let ghost mut used: nat = 0;
        let mut out: Vec<SemanticStmt> = Vec::new();
        let mut i: usize = 0;
        while i < stmts.len()
            invariant
                i <= stmts@.len(),
                m0 == old(self).model(),
                m0.room(stmts_cost(stmts@, 0)),
                m0.scopes.len() >= 1,
                self.model().scopes.len() == m0.scopes.len(),
                used + stmts_cost(stmts@, i as int) == stmts_cost(stmts@, 0),
                self.model().spent(m0, used),
                stmts_spec(m0, stmts@, 0, Seq::empty()) == stmts_spec(self.model(), stmts@, i as int, stmts_model(out@)),
            decreases stmts@.len() - i,
        {
            let r = self.analyze_stmt(&stmts[i]);
            proof {
                used = used + stmt_cost(stmts@[i as int]);
            }
            match r {
                Err(x) => {
                    return Err(x);
                },
                Ok(s) => {
                    proof {
                        lemma_stmts_model_push(out@, s);
                    }
                    out.push(s);
                },
            }
            i = i + 1;
        }
        Ok(out)
    }

    /// Analyse a statement (see [`stmt_spec`]).
    pub fn analyze_stmt(&mut self, stmt: &Stmt) -> (r: Result<SemanticStmt, SemanticError>)
        requires
            old(self).wf(),
            old(self).model().room(stmt_cost(*stmt)),
        ensures
            final(self).model().scopes.len() == old(self).model().scopes.len(),
            final(self).model().spent(old(self).model(), stmt_cost(*stmt)),
            (stmt_result(r), final(self).model()) == stmt_spec(old(self).model(), *stmt),
        decreases *stmt, 0nat,
    {
        match stmt {
            Stmt::EnumDef { name, variants, groups, super_groups, pos } => {
                proof {
                    lemma_groups_flat_len(groups_model(groups@));
                    lemma_supers_flat_len(supers_model(super_groups@));
                }
                let e = self.declare_enum(name, variants, groups, super_groups);
                Ok(SemanticStmt::EnumDef { enum_id: e.id, name: name.clone(), variants: clone_strings(variants), pos: *pos })
            },
            Stmt::Decl { name, ty, pos } => match self.declare(name, clone_opt_type(ty), None, false, *pos) {
                Err(x) => Err(x),
                Ok(b) => {
                    let sty = match ty {
                        Some(t) => Some(semantic_type_from_decl(t.clone())),
                        None => None,
                    };
                    Ok(SemanticStmt::Decl { binding: b, name: name.clone(), ty: sty, pos: *pos })
                },
            },
            Stmt::Assign { target, expr, pos_eq } => self.analyze_assign(target, expr, *pos_eq),
            Stmt::TypedAssign { name, ty, expr, pos_type } => self.analyze_typed_assign(name, ty, expr, *pos_type),
            Stmt::CompoundAssign { name, op, operand, pos } => {
                let binding = match self.lookup_var(name.as_str()) {
                    Some(info) => Some(info.binding),
                    None => None,
                };
                match self.analyze_expr(operand) {
                    Err(x) => Err(x),
                    Ok(o) => Ok(SemanticStmt::CompoundAssign { binding, name: name.clone(), op: *op, operand: o, pos: *pos }),
                }
            },
            Stmt::Print { expr, pos } => match self.analyze_expr(expr) {
                Err(x) => Err(x),
                Ok(e) => Ok(SemanticStmt::Print { expr: e, pos: *pos }),
            },
            Stmt::PrintInline { expr, _pos } => match self.analyze_expr(expr) {
                Err(x) => Err(x),
                Ok(e) => Ok(SemanticStmt::PrintInline { expr: e, pos: *_pos }),
            },
            Stmt::ExprStmt { expr, _pos } => match self.analyze_expr(expr) {
                Err(x) => Err(x),
                Ok(e) => Ok(SemanticStmt::ExprStmt { expr: e, pos: *_pos }),
            },
            Stmt::Return { expr, pos } => self.analyze_return(expr, *pos),
            Stmt::FuncDef { name, type_params, params, ret_ty, body, ret_expr, pos } => self.analyze_function(
                name,
                type_params,
                params,
                ret_ty,
                body,
                ret_expr,
                *pos,
            ),
            Stmt::Block { stmts, _pos } => {
                self.push_scope();
                match self.analyze_stmts(stmts) {
                    Err(x) => {
                        self.pop_scope();
                        Err(x)
                    },
                    Ok(v) => {
                        self.pop_scope();
                        Ok(SemanticStmt::Block { stmts: v, pos: *_pos })
                    },
                }
            },
            Stmt::While { cond, body, pos } => {
                let c = match self.analyze_expr(cond) {
                    Err(x) => {
                        return Err(x);
                    },
                    Ok(c) => c,
                };
                if matches!(c.ty, SemanticType::Unknown) {
                    return Err(text_error("Unknown value cannot be used as a loop condition â€” control-critical context", *pos));
                }
                match self.analyze_stmts(body) {
                    Err(x) => Err(x),
                    Ok(b) => Ok(SemanticStmt::While { cond: c, body: b, pos: *pos }),
                }
            },
            Stmt::For { var, start, end, inclusive, body, pos } => self.analyze_for(var, start, end, *inclusive, body, *pos),
            Stmt::Loop { body, pos } => match self.analyze_stmts(body) {
                Err(x) => Err(x),
                Ok(b) => Ok(SemanticStmt::Loop { body: b, pos: *pos }),
            },
            Stmt::Break { pos } => Ok(SemanticStmt::Break { pos: *pos }),
            Stmt::Continue { pos } => Ok(SemanticStmt::Continue { pos: *pos }),
            Stmt::When { expr, arms, pos } => self.analyze_when(expr, arms, *pos),
        }
    }

    /// `x = e` (see [`assign_spec`]).
    fn analyze_assign(&mut self, target: &Expr, expr: &Expr, pos_eq: usize) -> (r: Result<SemanticStmt, SemanticError>)
        ensures
            final(self).model().scopes.len() == old(self).model().scopes.len(),
            final(self).model().spent(old(self).model(), 0),
            (stmt_result(r), final(self).model()) == assign_spec(old(self).model(), *target, *expr, pos_eq),
    {
        let e = match self.analyze_expr(expr) {
            Err(x) => {
                return Err(x);
            },
            Ok(e) => e,
        };
        if matches!(e.ty, SemanticType::StrRef) {
            return Err(text_error("cannot assign a StrRef to a variable — use an owned str instead", pos_eq));
        }
        match target {
            Expr::Ident(name, _) => {
                let (i, j) = match self.locate_var(name.as_str()) {
                    None => {
                        return Err(name_error("use of undeclared variable '", name, "'", pos_eq));
                    },
                    Some(p) => p,
                };
                let ghost m = self.model();
                proof {
                    assert(m.scopes[i as int][j as int] == self.scopes@[i as int]@[j as int]);
                }
                let info = &self.scopes[i][j].1;
                let binding = info.binding;
                let (e2, inferred) = match &info.declared {
                    Some(d) => {
                        let t = semantic_type_from_decl(d.clone());
                        if !types_compatible(&t, &e.ty) {
                            return Err(type_mismatch_error(&t, &e.ty, pos_eq));
                        }
                        (insert_cast_if_needed(e, &t), clone_opt_ty(&info.inferred))
                    },
                    None => match &info.inferred {
                        Some(t) => {
                            if !types_compatible(t, &e.ty) {
                                return Err(type_mismatch_error(t, &e.ty, pos_eq));
                            }
                            if is_numeric(t) && is_numeric(&e.ty) {
                                let ty = e.ty.clone();
                                (e, Some(ty))
                            } else {
                                let t2 = t.clone();
                                (insert_cast_if_needed(e, &t2), Some(t2))
                            }
                        },
                        None => {
                            let ty = e.ty.clone();
                            (e, Some(ty))
                        },
                    },
                };
                self.update_var(i, j, inferred, true);
                proof {
                    assert(self.model().scopes.len() == self.scopes@.len());
                    assert(self.model().scopes[i as int] == self.scopes@[i as int]@);
                    assert(self.model().scopes[i as int][j as int] == self.scopes@[i as int]@[j as int]);
                }
                let ty = binding_type(&self.scopes[i][j].1);
                Ok(SemanticStmt::Assign {
                    target: SemanticLValue::Binding { binding, name: name.clone(), ty },
                    expr: e2,
                    pos_eq,
                })
            },
            Expr::DotAccess(container, field) => match self.initialized_var(container, pos_eq) {
                Err(x) => Err(x),
                Ok(info) => Ok(SemanticStmt::Assign {
                    target: SemanticLValue::DotAccess {
                        binding: Some(info.binding),
                        container: container.clone(),
                        field: field.clone(),
                        ty: SemanticType::Numeric,
                    },
                    expr: e,
                    pos_eq,
                }),
            },
            _ => Err(text_error("bad assignment target", pos_eq)),
        }
    }

    /// `x: T = e` (see [`typed_assign_spec`]).
    fn analyze_typed_assign(&mut self, name: &String, ty: &Type, expr: &Expr, pos_type: usize) -> (r: Result<SemanticStmt, SemanticError>)
        requires
            old(self).wf(),
            old(self).model().next_binding < u32::MAX,
        ensures
            final(self).wf(),
            final(self).model().scopes.len() == old(self).model().scopes.len(),
            final(self).model().spent(old(self).model(), 1),
            (stmt_result(r), final(self).model()) == typed_assign_spec(old(self).model(), *name, *ty, *expr, pos_type),
    {
        let declared_ty = semantic_type_from_decl(ty.clone());
        let e = match self.analyze_expr(expr) {
            Err(x) => {
                return Err(x);
            },
            Ok(e) => e,
        };
        if matches!(e.ty, SemanticType::StrRef) {
            return Err(text_error("cannot assign a StrRef to a variable — use an owned str instead", pos_type));
        }
        match expr {
            Expr::Val(AstValue::Num(n)) => match check_num_range(ty.clone(), *n, pos_type) {
                Err(x) => {
                    return Err(x);
                },
                Ok(_) => {},
            },
            _ => {},
        }
        if !types_compatible(&declared_ty, &e.ty) {
            return Err(type_mismatch_error(&declared_ty, &e.ty, pos_type));
        }
        let e2 = insert_cast_if_needed(e, &declared_ty);
        match self.declare(name, Some(ty.clone()), None, true, pos_type) {
            Err(x) => Err(x),
            Ok(binding) => Ok(SemanticStmt::TypedAssign { binding, name: name.clone(), ty: declared_ty, expr: e2, pos_type }),
        }
    }

    /// `return e` (see [`return_spec`]); the analyzer is unchanged.
    pub fn analyze_return(&self, expr: &Option<Expr>, pos: usize) -> (r: Result<SemanticStmt, SemanticError>)
        ensures
            (stmt_result(r), self.model()) == return_spec(self.model(), *expr, pos),
    {
        if !self.in_function {
            return Err(text_error("return used outside function body", pos));
        }
        match (expr, &self.current_ret_ty) {
            (Some(x), Some(t)) => {
                let a = match self.analyze_expr(x) {
                    Err(e) => {
                        return Err(e);
                    },
                    Ok(a) => a,
                };
                if matches!(a.ty, SemanticType::StrRef) {
                    return Err(text_error("cannot return a StrRef — it does not outlive its origin scope", pos));
                }
                if !types_compatible(t, &a.ty) {
                    return Err(operands_error("return type mismatch: expected ", t, ", got ", &a.ty, pos));
                }
                Ok(SemanticStmt::Return { expr: Some(insert_cast_if_needed(a, t)), pos })
            },
            (None, None) => Ok(SemanticStmt::Return { expr: None, pos }),
            (None, Some(t)) => Err(type_error("missing return value, expected ", t, pos)),
            (Some(x), None) => match self.analyze_expr(x) {
                Err(e) => Err(e),
                Ok(_) => Err(text_error("unexpected return value in void function", pos)),
            },
        }
    }
}

} // verus!

verus! {

impl Analyzer {
    /// Declare a function's parameters in the current scope, in order (see
    /// [`declare_params`]).
    fn declare_parameters(&mut self, params: &Vec<ParamKind>, pos: usize) -> (r: Result<Vec<SemanticParam>, SemanticError>)
        requires
            old(self).wf(),
            old(self).model().next_binding + params@.len() <= u32::MAX,
        ensures
            final(self).wf(),
            final(self).model().scopes.len() == old(self).model().scopes.len(),
            old(self).model().next_binding <= final(self).model().next_binding <= old(self).model().next_binding
                + params@.len(),
            final(self).model().next_function == old(self).model().next_function,
            final(self).model().next_enum == old(self).model().next_enum,
            final(self).model().next_variant == old(self).model().next_variant,
            ({
                let (r2, m2) = declare_params(old(self).model(), params@, 0, Seq::empty(), pos);
                &&& final(self).model() == m2
                &&& match r {
                    Ok(v) => r2 == Ok::<Seq<SemanticParam>, ErrorModel>(v@),
                    Err(e) => r2 == Err::<Seq<SemanticParam>, ErrorModel>(err_model(e)),
                }
            }),
    {
        let ghost m0 = self.model();
        let mut resolved: Vec<SemanticParam> = Vec::new();
        let mut k: usize = 0;
        while k < params.len()
            invariant
                k <= params@.len(),
                m0 == old(self).model(),
                m0.scopes.len() >= 1,
                self.model().scopes.len() == m0.scopes.len(),
                self.model().next_binding == m0.next_binding + k,
                m0.next_binding + params@.len() <= u32::MAX,
                self.model().next_function == m0.next_function,
                self.model().next_enum == m0.next_enum,
                self.model().next_variant == m0.next_variant,
                declare_params(m0, params@, 0, Seq::empty(), pos) == declare_params(
                    self.model(),
                    params@,
                    k as int,
                    resolved@,
                    pos,
                ),
            decreases params@.len() - k,
        {
            let (pname, declared, kind, ty) = match &params[k] {
                ParamKind::Typed(n, t) => (n, Some(t.clone()), SemanticParamKind::Typed, Some(semantic_type_from_decl(t.clone()))),
                ParamKind::Copy(n) => (n, None, SemanticParamKind::Copy, None),
                ParamKind::CopyFree(n) => (n, None, SemanticParamKind::CopyFree, None),
                ParamKind::CopyInto(n, _) => (n, None, SemanticParamKind::CopyInto, None),
            };
            let b = match self.declare(pname, declared, None, true, pos) {
                Err(x) => {
                    return Err(x);
                },
                Ok(b) => b,
            };
            resolved.push(SemanticParam { binding: b, name: pname.clone(), kind, ty });
            k = k + 1;
        }
        Ok(resolved)
    }

    /// Leave a function body: restore the enclosing function's return type
    /// and flag and close the body's scope (see [`leave_function`]).
    fn leave_function(&mut self, prev_ret_ty: Option<SemanticType>, prev_in_function: bool)
        requires
            old(self).wf(),
        ensures
            final(self).model() == (AnalyzerModel {
                ret_ty: prev_ret_ty,
                in_function: prev_in_function,
                ..old(self).model()
            }).pop_scope(),
    {
        self.current_ret_ty = prev_ret_ty;
        self.in_function = prev_in_function;
        self.pop_scope();
    }

    /// A function definition (see [`function_spec`]).
    pub fn analyze_function(
        &mut self,
        name: &String,
        type_params: &Vec<String>,
        params: &Vec<ParamKind>,
        ret_ty: &Option<Type>,
        body: &Vec<Stmt>,
        ret_expr: &Option<Expr>,
        pos: usize,
    ) -> (r: Result<SemanticStmt, SemanticError>)
        requires
            old(self).wf(),
            old(self).model().room(2 + params@.len() + stmts_cost(body@, 0)),
        ensures
            final(self).model().scopes.len() == old(self).model().scopes.len(),
            final(self).model().spent(old(self).model(), 2 + params@.len() + stmts_cost(body@, 0)),
            (stmt_result(r), final(self).model()) == function_spec(
                old(self).model(),
                *name,
                type_params@,
                params@,
                *ret_ty,
                body@,
                *ret_expr,
                pos,
            ),
        decreases body@, body@.len() + 1,
    {
        let func_id = self.fresh_function();
        match self.declare(name, clone_opt_type(ret_ty), None, true, pos) {
            Err(x) => {
                return Err(x);
            },
            Ok(_) => {},
        }
        let mut placeholders: Vec<SemanticParam> = Vec::new();
        let mut i: usize = 0;
        while i < params.len()
            invariant
                i <= params@.len(),
                placeholders@ == params@.take(i as int).map_values(|p: ParamKind| placeholder_of(p)),
            decreases params@.len() - i,
        {
            placeholders.push(semantic_param_placeholder(&params[i]));
            proof {
                assert(params@.take(i + 1).map_values(|p: ParamKind| placeholder_of(p)) =~= params@.take(
                    i as int,
                ).map_values(|p: ParamKind| placeholder_of(p)).push(placeholder_of(params@[i as int])));
            }
            i = i + 1;
        }
        proof {
            assert(params@.take(params@.len() as int) =~= params@);
        }
        let rt = match ret_ty {
            Some(t) => Some(semantic_type_from_decl(t.clone())),
            None => None,
        };
        let info = FunctionInfo {
            id: func_id,
            params: placeholders,
            ret_ty: clone_opt_ty(&rt),
            type_params: clone_strings(type_params),
        };
        self.record_function(name, info);
        let ghost m3 = self.model();
        self.push_scope();
        let prev_ret_ty = clone_opt_ty(&self.current_ret_ty);
        let prev_in_function = self.in_function;
        self.in_function = true;
        self.current_ret_ty = clone_opt_ty(&rt);
        let resolved = match self.declare_parameters(params, pos) {
            Err(x) => {
                self.leave_function(prev_ret_ty, prev_in_function);
                return Err(x);
            },
            Ok(v) => v,
        };
        self.set_function_params(name, clone_params(&resolved));
        let sb = match self.analyze_stmts(body) {
            Err(x) => {
                self.leave_function(prev_ret_ty, prev_in_function);
                return Err(x);
            },
            Ok(v) => v,
        };
        let re = match ret_expr {
            Some(x) => {
                let a = match self.analyze_expr(x) {
                    Err(e) => {
                        self.leave_function(prev_ret_ty, prev_in_function);
                        return Err(e);
                    },
                    Ok(a) => a,
                };
                if matches!(a.ty, SemanticType::StrRef) {
                    self.leave_function(prev_ret_ty, prev_in_function);
                    return Err(text_error("cannot return a StrRef — it does not outlive its origin scope", pos));
                }
                match &self.current_ret_ty {
                    Some(t) => {
                        if !types_compatible(t, &a.ty) {
                            let e = operands_error("return type mismatch: expected ", t, ", got ", &a.ty, pos);
                            self.leave_function(prev_ret_ty, prev_in_function);
                            return Err(e);
                        }
                        let t2 = t.clone();
                        Some(insert_cast_if_needed(a, &t2))
                    },
                    None => Some(a),
                }
            },
            None => match ret_ty {
                Some(t) => {
                    if !contains_return_stmt(body) {
                        let e = type_error("missing return value, expected ", &semantic_type_from_decl(t.clone()), pos);
                        self.leave_function(prev_ret_ty, prev_in_function);
                        return Err(e);
                    }
                    None
                },
                None => None,
            },
        };
        self.leave_function(prev_ret_ty, prev_in_function);
        Ok(SemanticStmt::FuncDef(SemanticFunction {
            id: func_id,
            name: name.clone(),
            type_params: clone_strings(type_params),
            params: resolved,
            return_ty: rt,
            body: sb,
            ret_expr: re,
            pos,
        }))
    }

    /// The body of a `for` loop (see [`for_body`]).
    fn analyze_for_body(&mut self, var: &String, body: &Vec<Stmt>, pos: usize) -> (r: Result<Vec<SemanticStmt>, SemanticError>)
        requires
            old(self).model().scopes.len() >= 2,
            old(self).model().room(stmts_cost(body@, 0)),
        ensures
            r is Ok ==> final(self).model().scopes.len() == old(self).model().scopes.len(),
            r is Err ==> final(self).model().scopes.len() + 1 == old(self).model().scopes.len(),
            final(self).model().spent(old(self).model(), stmts_cost(body@, 0)),
            (stmts_result(r), final(self).model()) == for_body(old(self).model(), *var, body@, 0, Seq::empty(), pos),
        decreases body@, body@.len(),
    {
        let ghost m0 = self.model();
        let ghost mut used: nat = 0;
        let mut out: Vec<SemanticStmt> = Vec::new();
        let mut i: usize = 0;
        while i < body.len()
            invariant
                i <= body@.len(),
                m0 == old(self).model(),
                m0.room(stmts_cost(body@, 0)),
                m0.scopes.len() >= 2,
                self.model().scopes.len() == m0.scopes.len(),
                used + stmts_cost(body@, i as int) == stmts_cost(body@, 0),
                self.model().spent(m0, used),
                for_body(m0, *var, body@, 0, Seq::empty(), pos) == for_body(
                    self.model(),
                    *var,
                    body@,
                    i as int,
                    stmts_model(out@),
                    pos,
                ),
            decreases body@.len() - i,
        {
            let s = &body[i];
            let assigns = match s {
                Stmt::Assign { target, .. } => match target {
                    Expr::Ident(n, _) => str_eq_string(n.as_str(), var),
                    _ => false,
                },
                Stmt::CompoundAssign { name, .. } => str_eq_string(name.as_str(), var),
                _ => false,
            };
            if assigns {
                self.pop_scope();
                return Err(name_error("loop variable '", var, "' is read-only", pos));
            }
            let r = self.analyze_stmt(s);
            proof {
                used = used + stmt_cost(body@[i as int]);
            }
            match r {
                Err(x) => {
                    self.pop_scope();
                    return Err(x);
                },
                Ok(st) => {
                    proof {
                        lemma_stmts_model_push(out@, st);
                    }
                    out.push(st);
                },
            }
            i = i + 1;
        }
        Ok(out)
    }

    /// A `for` loop (see [`for_spec`]).
    pub fn analyze_for(
        &mut self,
        var: &String,
        start: &Expr,
        end: &Expr,
        inclusive: bool,
        body: &Vec<Stmt>,
        pos: usize,
    ) -> (r: Result<SemanticStmt, SemanticError>)
        requires
            old(self).wf(),
            old(self).model().room(1 + stmts_cost(body@, 0)),
        ensures
            final(self).model().scopes.len() == old(self).model().scopes.len(),
            final(self).model().spent(old(self).model(), 1 + stmts_cost(body@, 0)),
            (stmt_result(r), final(self).model()) == for_spec(old(self).model(), *var, *start, *end, inclusive, body@, pos),
        decreases body@, body@.len() + 1,
    {
        self.push_scope();
        let ghost pushed = self.model();
        let binding = match self.declare(var, Some(Type::T64), Some(SemanticType::I64), true, pos) {
            Err(x) => {
                proof {
                    assert(pushed.fresh_binding().1.scopes == pushed.scopes);
                    assert(self.model().scopes.len() == pushed.scopes.len());
                    assert(pushed.scopes.len() == old(self).model().scopes.len() + 1);
                }
                self.pop_scope();
                proof {
                    assert(self.model().scopes.len() == old(self).model().scopes.len());
                }
                return Err(x);
            },
            Ok(b) => b,
        };
        proof {
            assert(pushed.fresh_binding().1.scopes == pushed.scopes);
            assert(self.model().scopes.len() == old(self).model().scopes.len() + 1);
        }
        let ghost before_body = self.model();
        let out = match self.analyze_for_body(var, body, pos) {
            Err(x) => {
                proof {
                    assert(self.model().scopes.len() + 1 == before_body.scopes.len());
                }
                return Err(x);
            },
            Ok(v) => v,
        };
        self.pop_scope();
        let s = match self.analyze_expr(start) {
            Err(x) => {
                return Err(x);
            },
            Ok(s) => s,
        };
        let e = match self.analyze_expr(end) {
            Err(x) => {
                return Err(x);
            },
            Ok(e) => e,
        };
        Ok(SemanticStmt::For { binding, var: var.clone(), start: s, end: e, inclusive, body: out, pos })
    }

    /// The arms of a `when`, in order (see [`when_arms`]).
    fn analyze_arms(&mut self, explicit: &Vec<String>, arms: &Vec<WhenArm>, pos: usize) -> (r: Result<Vec<SemanticWhenArm>, SemanticError>)
        requires
            old(self).wf(),
            old(self).model().room(arms_cost(arms@, 0)),
        ensures
            final(self).model().scopes.len() == old(self).model().scopes.len(),
            final(self).model().spent(old(self).model(), arms_cost(arms@, 0)),
            ({
                let (r2, m2) = when_arms(old(self).model(), explicit@, arms@, 0, Seq::empty(), pos);
                &&& final(self).model() == m2
                &&& match r {
                    Ok(v) => r2 == Ok::<Seq<ArmModel>, ErrorModel>(arms_model(v@)),
                    Err(e) => r2 == Err::<Seq<ArmModel>, ErrorModel>(err_model(e)),
                }
            }),
        decreases arms@, arms@.len(),
    {
        let ghost m0 = self.model();
        let ghost mut used: nat = 0;
        let mut out: Vec<SemanticWhenArm> = Vec::new();
        let mut i: usize = 0;
        while i < arms.len()
            invariant
                i <= arms@.len(),
                m0 == old(self).model(),
                m0.room(arms_cost(arms@, 0)),
                m0.scopes.len() >= 1,
                self.model().scopes.len() == m0.scopes.len(),
                used + arms_cost(arms@, i as int) == arms_cost(arms@, 0),
                self.model().spent(m0, used),
                when_arms(m0, explicit@, arms@, 0, Seq::empty(), pos) == when_arms(
                    self.model(),
                    explicit@,
                    arms@,
                    i as int,
                    arms_model(out@),
                    pos,
                ),
            decreases arms@.len() - i,
        {
            let r = self.analyze_arm(explicit, &arms[i], pos);
            proof {
                used = used + arm_cost(arms@[i as int]);
            }
            match r {
                Err(x) => {
                    return Err(x);
                },
                Ok(a) => {
                    proof {
                        lemma_arms_model_push(out@, a);
                    }
                    out.push(a);
                },
            }
            i = i + 1;
        }
        Ok(out)
    }

    /// A `when` statement (see [`when_spec`]).
    pub fn analyze_when(&mut self, expr: &Expr, arms: &Vec<WhenArm>, pos: usize) -> (r: Result<SemanticStmt, SemanticError>)
        requires
            old(self).wf(),
            old(self).model().room(arms_cost(arms@, 0)),
        ensures
            final(self).model().scopes.len() == old(self).model().scopes.len(),
            final(self).model().spent(old(self).model(), arms_cost(arms@, 0)),
            (stmt_result(r), final(self).model()) == when_spec(old(self).model(), *expr, arms@, pos),
        decreases arms@, arms@.len() + 1,
    {
        let e = match self.analyze_expr(expr) {
            Err(x) => {
                return Err(x);
            },
            Ok(e) => e,
        };
        let explicit = explicit_group_names(arms);
        match self.analyze_arms(&explicit, arms, pos) {
            Err(x) => Err(x),
            Ok(out) => Ok(SemanticStmt::When { expr: e, arms: out, pos }),
        }
    }

    /// The handlers of a super-group arm, in order (see [`handlers_spec`]).
    fn analyze_handlers(
        &mut self,
        explicit: &Vec<String>,
        subs: &Vec<String>,
        hs: &Vec<SuperGroupHandler>,
        pos: usize,
    ) -> (r: Result<Vec<SemanticStmt>, SemanticError>)
        requires
            old(self).wf(),
            old(self).model().room(handlers_cost(hs@, 0)),
            hs@.len() == subs@.len(),
        ensures
            final(self).model().scopes.len() == old(self).model().scopes.len(),
            final(self).model().spent(old(self).model(), handlers_cost(hs@, 0)),
            (stmts_result(r), final(self).model()) == handlers_spec(
                old(self).model(),
                explicit@,
                subs@,
                hs@,
                0,
                Seq::empty(),
                pos,
            ),
        decreases hs@, hs@.len(),
    {
        let ghost m0 = self.model();
        let ghost mut used: nat = 0;
        let mut acc: Vec<SemanticStmt> = Vec::new();
        let mut i: usize = 0;
        while i < hs.len()
            invariant
                i <= hs@.len(),
                hs@.len() == subs@.len(),
                m0 == old(self).model(),
                m0.room(handlers_cost(hs@, 0)),
                m0.scopes.len() >= 1,
                self.model().scopes.len() == m0.scopes.len(),
                used + handlers_cost(hs@, i as int) == handlers_cost(hs@, 0),
                self.model().spent(m0, used),
                handlers_spec(m0, explicit@, subs@, hs@, 0, Seq::empty(), pos) == handlers_spec(
                    self.model(),
                    explicit@,
                    subs@,
                    hs@,
                    i as int,
                    stmts_model(acc@),
                    pos,
                ),
            decreases hs@.len() - i,
        {
            match &hs[i] {
                SuperGroupHandler::Placeholder => {
                    if !has_string(explicit, &subs[i]) {
                        return Err(placeholder_error(i + 1, &subs[i], pos));
                    }
                },
                SuperGroupHandler::Stmts(ss) => {
                    let r = self.analyze_stmts(ss);
                    proof {
                        used = used + stmts_cost(ss@, 0);
                    }
                    match r {
                        Err(x) => {
                            return Err(x);
                        },
                        Ok(v) => {
                            let mut v = v;
                            proof {
                                crate::frontend::model::lemma_stmts_model_concat(acc@, v@);
                            }
                            acc.append(&mut v);
                        },
                    }
                },
            }
            i = i + 1;
        }
        Ok(acc)
    }

    /// One arm of a `when` (see [`arm_spec`]).
    fn analyze_arm(&mut self, explicit: &Vec<String>, arm: &WhenArm, pos: usize) -> (r: Result<SemanticWhenArm, SemanticError>)
        requires
            old(self).wf(),
            old(self).model().room(arm_cost(*arm)),
        ensures
            final(self).model().scopes.len() == old(self).model().scopes.len(),
            final(self).model().spent(old(self).model(), arm_cost(*arm)),
            (crate::frontend::model::arm_result(r), final(self).model()) == arm_spec(old(self).model(), explicit@, *arm, pos),
        decreases *arm, 0nat,
    {
        match &arm.pattern {
            WhenPattern::Group(_, g) => {
                if !self.group_known(g) {
                    return Err(name_error("'", g, "' is not a known group or super-group name", pos));
                }
            },
            _ => {},
        }
        let body = match &arm.body {
            WhenBody::Stmts(ss) => match self.analyze_stmts(ss) {
                Err(x) => {
                    return Err(x);
                },
                Ok(v) => v,
            },
            WhenBody::SuperGroup(hs) => {
                let sname = match &arm.pattern {
                    WhenPattern::Group(_, n) => n,
                    _ => {
                        return Err(text_error("super-group handler list is only valid on a group pattern arm", pos));
                    },
                };
                let subs = match self.super_subs(sname) {
                    None => {
                        return Err(name_error("'", sname, "' is not a known super-group name", pos));
                    },
                    Some(v) => v,
                };
                if hs.len() != subs.len() {
                    return Err(handler_count_error(sname, subs.len(), hs.len(), pos));
                }
                match self.analyze_handlers(explicit, &subs, hs, pos) {
                    Err(x) => {
                        return Err(x);
                    },
                    Ok(v) => v,
                }
            },
        };
        let pattern = self.analyze_when_pattern(&arm.pattern);
        Ok(SemanticWhenArm { pattern, body, pos: arm.pos })
    }
}

} // verus!

verus! {

// ── Whole programs ───────────────────────────────────────────────────────────

/// The placeholder records of a signature's parameters.
fn placeholders_of(params: &Vec<ParamKind>) -> (r: Vec<SemanticParam>)
    ensures
        r@ == params@.map_values(|p: ParamKind| placeholder_of(p)),
{
    let mut r: Vec<SemanticParam> = Vec::new();
    let mut i: usize = 0;
    while i < params.len()
        invariant
            i <= params@.len(),
            r@ == params@.take(i as int).map_values(|p: ParamKind| placeholder_of(p)),
        decreases params@.len() - i,
    {
        r.push(semantic_param_placeholder(&params[i]));
        proof {
            assert(params@.take(i + 1).map_values(|p: ParamKind| placeholder_of(p)) =~= params@.take(
                i as int,
            ).map_values(|p: ParamKind| placeholder_of(p)).push(placeholder_of(params@[i as int])));
        }
        i = i + 1;
    }
    proof {
        assert(params@.take(params@.len() as int) =~= params@);
    }
    r
}

/// Analyse a program: every top-level function is recorded first, then
/// each statement is analysed in turn; an error does not stop the
/// statements after it. The analysed program, with the enums it declares,
/// comes back when no statement failed; otherwise every error, in order
/// (see [`program_spec`]).
pub fn analyze_program(program: &Program) -> (r: Result<SemanticProgram, Vec<SemanticError>>)
    requires
        program_cost(program.stmts@) <= u32::MAX,
    ensures
        program_result(r) == program_spec(program.stmts@),
{
    let ss = &program.stmts;
    let mut analyzer = Analyzer::new();
    let mut i: usize = 0;
    while i < ss.len()
        invariant
            i <= ss@.len(),
            ss@.len() <= u32::MAX,
            prepass(initial_model(), ss@, 0) == prepass(analyzer.model(), ss@, i as int),
            analyzer.model().next_function <= i,
            analyzer.model().next_binding == 0,
            analyzer.model().next_enum == 0,
            analyzer.model().next_variant == 0,
            analyzer.model().scopes.len() == 1,
        decreases ss@.len() - i,
    {
        match &ss[i] {
            Stmt::FuncDef { name, type_params, params, ret_ty, .. } => {
                let placeholders = placeholders_of(params);
                let func_id = analyzer.fresh_function();
                let rt = match ret_ty {
                    Some(t) => Some(semantic_type_from_decl(t.clone())),
                    None => None,
                };
                analyzer.record_function(
                    name,
                    FunctionInfo { id: func_id, params: placeholders, ret_ty: rt, type_params: clone_strings(type_params) },
                );
            },
            _ => {},
        }
        i = i + 1;
    }
    let ghost m1 = analyzer.model();
    let ghost mut used: nat = 0;
    let mut errors: Vec<SemanticError> = Vec::new();
    let mut semantic_stmts: Vec<SemanticStmt> = Vec::new();
    proof {
        assert(stmts_model(semantic_stmts@) =~= Seq::<StmtModel>::empty());
        assert(errors@.map_values(|e: SemanticError| err_model(e)) =~= Seq::<ErrorModel>::empty());
    }
    let mut j: usize = 0;
    while j < ss.len()
        invariant
            j <= ss@.len(),
            analyzer.model().scopes.len() >= 1,
            m1.next_function <= ss@.len(),
            m1.next_binding == 0,
            m1.next_enum == 0,
            m1.next_variant == 0,
            program_cost(ss@) <= u32::MAX,
            used + stmts_cost(ss@, j as int) == stmts_cost(ss@, 0),
            analyzer.model().spent(m1, used),
            program_run(m1, ss@, 0, Seq::empty(), Seq::empty()) == program_run(
                analyzer.model(),
                ss@,
                j as int,
                stmts_model(semantic_stmts@),
                errors@.map_values(|e: SemanticError| err_model(e)),
            ),
        decreases ss@.len() - j,
    {
        let r = analyzer.analyze_stmt(&ss[j]);
        proof {
            used = used + stmt_cost(ss@[j as int]);
        }
        match r {
            Ok(s) => {
                proof {
                    lemma_stmts_model_push(semantic_stmts@, s);
                }
                semantic_stmts.push(s);
            },
            Err(e) => {
                let ghost before = errors@;
                errors.push(e);
                proof {
                    assert(errors@.map_values(|x: SemanticError| err_model(x)) =~= before.map_values(
                        |x: SemanticError| err_model(x),
                    ).push(err_model(e)));
                }
            },
        }
        j = j + 1;
    }
    proof {
        assert(errors@.map_values(|x: SemanticError| err_model(x)).len() == errors@.len());
    }
    if errors.len() == 0 {
        Ok(SemanticProgram { stmts: semantic_stmts, enums: analyzer.enum_defs })
    } else {
        Err(errors)
    }
}

} // verus!

