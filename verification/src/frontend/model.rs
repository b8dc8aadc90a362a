//! The mathematical model of semantic analysis: the analyzer's state, the
//! resolved program as sequences, and the maps between them and the
//! executable types.
use vstd::prelude::*;
use crate::frontend::ast::{Op, Type};
use crate::frontend::semantic::{EnumInfo, FunctionInfo, SemanticError, VarInfo};
use crate::frontend::semantic_types::{
    BindingId, EnumId, EnumVariantId, FunctionId, ResolvedBinding, SemanticCallArg, SemanticEnum,
    SemanticEnumGroup, SemanticEnumVariant, SemanticExpr, SemanticExprKind, SemanticFunction,
    SemanticLValue, SemanticParam, SemanticProgram, SemanticStmt, SemanticType, SemanticValue, SemanticWhenArm,
    SemanticWhenPattern,
};

verus! {

// ── Errors ───────────────────────────────────────────────────────────────────

/// A semantic error as a message and a position.
pub struct ErrorModel {
    pub msg: Seq<char>,
    pub pos: usize,
}

pub open spec fn err_model(e: SemanticError) -> ErrorModel {
    ErrorModel { msg: e.msg@, pos: e.pos }
}

pub open spec fn fail<T>(msg: Seq<char>, pos: usize) -> Result<T, ErrorModel> {
    Err(ErrorModel { msg, pos })
}

// ── Resolved expressions and statements ──────────────────────────────────────

/// A typed expression whose lists are sequences.
pub struct ExprModel {
    pub ty: SemanticType,
    pub kind: KindModel,
}

pub enum KindModel {
    Value(SemanticValue),
    VarRef { binding: BindingId, name: String },
    DotAccess { binding: Option<BindingId>, container: String, field: String },
    HandleNew { value: Box<ExprModel>, pos: usize },
    HandleVal { binding: BindingId, name: String, pos: usize },
    HandleDrop { binding: BindingId, name: String, pos: usize },
    Call { callee: String, function: FunctionId, args: Seq<ArgModel> },
    Range { start: Box<ExprModel>, end: Box<ExprModel>, inclusive: bool },
    Unary { op: Op, expr: Box<ExprModel>, pos: usize },
    Binary { lhs: Box<ExprModel>, op: Op, pos: usize, rhs: Box<ExprModel> },
    Cast { expr: Box<ExprModel>, from: SemanticType, to: SemanticType },
}

pub enum ArgModel {
    Expr(ExprModel),
    Copy { binding: BindingId, name: String },
    CopyFree { binding: BindingId, name: String },
    CopyInto(Seq<ResolvedBinding>),
}

pub struct FunctionModel {
    pub id: FunctionId,
    pub name: String,
    pub type_params: Seq<String>,
    pub params: Seq<SemanticParam>,
    pub return_ty: Option<SemanticType>,
    pub body: Seq<StmtModel>,
    pub ret_expr: Option<ExprModel>,
    pub pos: usize,
}

pub struct ArmModel {
    pub pattern: SemanticWhenPattern,
    pub body: Seq<StmtModel>,
    pub pos: usize,
}

#[allow(inconsistent_fields)]
pub enum StmtModel {
    EnumDef { enum_id: EnumId, name: String, variants: Seq<String>, pos: usize },
    Decl { binding: BindingId, name: String, ty: Option<SemanticType>, pos: usize },
    Assign { target: SemanticLValue, expr: ExprModel, pos_eq: usize },
    TypedAssign { binding: BindingId, name: String, ty: SemanticType, expr: ExprModel, pos_type: usize },
    CompoundAssign { binding: Option<BindingId>, name: String, op: Op, operand: ExprModel, pos: usize },
    Print { expr: ExprModel, pos: usize },
    PrintInline { expr: ExprModel, pos: usize },
    ExprStmt { expr: ExprModel, pos: usize },
    Return { expr: Option<ExprModel>, pos: usize },
    FuncDef(FunctionModel),
    Block { stmts: Seq<StmtModel>, pos: usize },
    While { cond: ExprModel, body: Seq<StmtModel>, pos: usize },
    For {
        binding: BindingId,
        var: String,
        start: ExprModel,
        end: ExprModel,
        inclusive: bool,
        body: Seq<StmtModel>,
        pos: usize,
    },
    Loop { body: Seq<StmtModel>, pos: usize },
    Break { pos: usize },
    Continue { pos: usize },
    When { expr: ExprModel, arms: Seq<ArmModel>, pos: usize },
}

/// A declared enum: its variants in declaration order and its groups as
/// (name, variant ids).
pub struct EnumModel {
    pub id: EnumId,
    pub name: String,
    pub declared_ty: Type,
    pub variants: Seq<SemanticEnumVariant>,
    pub groups: Seq<(String, Seq<EnumVariantId>)>,
}

pub open spec fn expr_model(e: SemanticExpr) -> ExprModel
    decreases e,
{
    ExprModel { ty: e.ty, kind: kind_model(e.kind) }
}

pub open spec fn kind_model(k: SemanticExprKind) -> KindModel
    decreases k,
{
    match k {
        SemanticExprKind::Value(v) => KindModel::Value(v),
        SemanticExprKind::VarRef { binding, name } => KindModel::VarRef { binding, name },
        SemanticExprKind::DotAccess { binding, container, field } => KindModel::DotAccess {
            binding,
            container,
            field,
        },
        SemanticExprKind::HandleNew { value, pos } => KindModel::HandleNew {
            value: Box::new(expr_model(*value)),
            pos,
        },
        SemanticExprKind::HandleVal { binding, name, pos } => KindModel::HandleVal { binding, name, pos },
        SemanticExprKind::HandleDrop { binding, name, pos } => KindModel::HandleDrop { binding, name, pos },
        SemanticExprKind::Call { callee, function, args } => KindModel::Call {
            callee,
            function,
            args: args_model(args@),
        },
        SemanticExprKind::Range { start, end, inclusive } => KindModel::Range {
            start: Box::new(expr_model(*start)),
            end: Box::new(expr_model(*end)),
            inclusive,
        },
        SemanticExprKind::Unary { op, expr, pos } => KindModel::Unary {
            op,
            expr: Box::new(expr_model(*expr)),
            pos,
        },
        SemanticExprKind::Binary { lhs, op, pos, rhs } => KindModel::Binary {
            lhs: Box::new(expr_model(*lhs)),
            op,
            pos,
            rhs: Box::new(expr_model(*rhs)),
        },
        SemanticExprKind::Cast { expr, from, to } => KindModel::Cast {
            expr: Box::new(expr_model(*expr)),
            from,
            to,
        },
    }
}

pub open spec fn args_model(s: Seq<SemanticCallArg>) -> Seq<ArgModel>
    decreases s,
{
    if s.len() == 0 {
        Seq::empty()
    } else {
        args_model(s.drop_last()).push(arg_model(s.last()))
    }
}

pub open spec fn arg_model(a: SemanticCallArg) -> ArgModel
    decreases a,
{
    match a {
        SemanticCallArg::Expr(e) => ArgModel::Expr(expr_model(e)),
        SemanticCallArg::Copy { binding, name } => ArgModel::Copy { binding, name },
        SemanticCallArg::CopyFree { binding, name } => ArgModel::CopyFree { binding, name },
        SemanticCallArg::CopyInto(v) => ArgModel::CopyInto(v@),
    }
}

pub open spec fn stmt_model(s: SemanticStmt) -> StmtModel
    decreases s,
{
    match s {
        SemanticStmt::EnumDef { enum_id, name, variants, pos } => StmtModel::EnumDef {
            enum_id,
            name,
            variants: variants@,
            pos,
        },
        SemanticStmt::Decl { binding, name, ty, pos } => StmtModel::Decl { binding, name, ty, pos },
        SemanticStmt::Assign { target, expr, pos_eq } => StmtModel::Assign {
            target,
            expr: expr_model(expr),
            pos_eq,
        },
        SemanticStmt::TypedAssign { binding, name, ty, expr, pos_type } => StmtModel::TypedAssign {
            binding,
            name,
            ty,
            expr: expr_model(expr),
            pos_type,
        },
        SemanticStmt::CompoundAssign { binding, name, op, operand, pos } => StmtModel::CompoundAssign {
            binding,
            name,
            op,
            operand: expr_model(operand),
            pos,
        },
        SemanticStmt::Print { expr, pos } => StmtModel::Print { expr: expr_model(expr), pos },
        SemanticStmt::PrintInline { expr, pos } => StmtModel::PrintInline { expr: expr_model(expr), pos },
        SemanticStmt::ExprStmt { expr, pos } => StmtModel::ExprStmt { expr: expr_model(expr), pos },
        SemanticStmt::Return { expr, pos } => StmtModel::Return {
            expr: match expr {
                Some(x) => Some(expr_model(x)),
                None => None,
            },
            pos,
        },
        SemanticStmt::FuncDef(f) => StmtModel::FuncDef(FunctionModel {
            id: f.id,
            name: f.name,
            type_params: f.type_params@,
            params: f.params@,
            return_ty: f.return_ty,
            body: stmts_model(f.body@),
            ret_expr: match f.ret_expr {
                Some(x) => Some(expr_model(x)),
                None => None,
            },
            pos: f.pos,
        }),
        SemanticStmt::Block { stmts, pos } => StmtModel::Block { stmts: stmts_model(stmts@), pos },
        SemanticStmt::While { cond, body, pos } => StmtModel::While {
            cond: expr_model(cond),
            body: stmts_model(body@),
            pos,
        },
        SemanticStmt::For { binding, var, start, end, inclusive, body, pos } => StmtModel::For {
            binding,
            var,
            start: expr_model(start),
            end: expr_model(end),
            inclusive,
            body: stmts_model(body@),
            pos,
        },
        SemanticStmt::Loop { body, pos } => StmtModel::Loop { body: stmts_model(body@), pos },
        SemanticStmt::Break { pos } => StmtModel::Break { pos },
        SemanticStmt::Continue { pos } => StmtModel::Continue { pos },
        SemanticStmt::When { expr, arms, pos } => StmtModel::When {
            expr: expr_model(expr),
            arms: arms_model(arms@),
            pos,
        },
    }
}

pub open spec fn stmts_model(s: Seq<SemanticStmt>) -> Seq<StmtModel>
    decreases s,
{
    if s.len() == 0 {
        Seq::empty()
    } else {
        stmts_model(s.drop_last()).push(stmt_model(s.last()))
    }
}

pub open spec fn arms_model(s: Seq<SemanticWhenArm>) -> Seq<ArmModel>
    decreases s,
{
    if s.len() == 0 {
        Seq::empty()
    } else {
        arms_model(s.drop_last()).push(arm_model(s.last()))
    }
}

pub open spec fn arm_model(a: SemanticWhenArm) -> ArmModel
    decreases a,
{
    ArmModel { pattern: a.pattern, body: stmts_model(a.body@), pos: a.pos }
}

pub open spec fn enum_groups_model(s: Seq<SemanticEnumGroup>) -> Seq<(String, Seq<EnumVariantId>)> {
    s.map_values(|g: SemanticEnumGroup| (g.name, g.variants@))
}

pub open spec fn enum_model(e: SemanticEnum) -> EnumModel {
    EnumModel {
        id: e.id,
        name: e.name,
        declared_ty: e.declared_ty,
        variants: e.variants@,
        groups: enum_groups_model(e.groups@),
    }
}

// ── The analyzer's state ─────────────────────────────────────────────────────

/// What the analyzer knows of a function.
pub struct FuncInfoModel {
    pub id: FunctionId,
    pub params: Seq<SemanticParam>,
    pub ret_ty: Option<SemanticType>,
    pub type_params: Seq<String>,
}

/// What the analyzer knows of an enum: variant name to id, and the groups
/// and super-groups as declared.
pub struct EnumInfoModel {
    pub id: EnumId,
    pub variants: Seq<(String, EnumVariantId)>,
    pub groups: Seq<(String, Seq<String>)>,
    pub super_groups: Seq<(String, Seq<(String, Seq<String>)>)>,
}

pub open spec fn func_info_model(f: FunctionInfo) -> FuncInfoModel {
    FuncInfoModel { id: f.id, params: f.params@, ret_ty: f.ret_ty, type_params: f.type_params@ }
}

pub open spec fn groups_model(g: Seq<(String, Vec<String>)>) -> Seq<(String, Seq<String>)> {
    g.map_values(|p: (String, Vec<String>)| (p.0, p.1@))
}

pub open spec fn supers_model(g: Seq<(String, Vec<(String, Vec<String>)>)>) -> Seq<
    (String, Seq<(String, Seq<String>)>),
> {
    g.map_values(|p: (String, Vec<(String, Vec<String>)>)| (p.0, groups_model(p.1@)))
}

pub open spec fn enum_info_model(e: EnumInfo) -> EnumInfoModel {
    EnumInfoModel {
        id: e.id,
        variants: e.variants@,
        groups: groups_model(e.groups@),
        super_groups: supers_model(e.super_groups@),
    }
}

/// The analyzer: its scopes (innermost last), the return type and whether
/// a function body is being analysed, the functions and enums known by
/// name, the enums declared so far, and the next free id of each kind.
pub struct AnalyzerModel {
    pub scopes: Seq<Seq<(String, VarInfo)>>,
    pub ret_ty: Option<SemanticType>,
    pub in_function: bool,
    pub funcs: Seq<(String, FuncInfoModel)>,
    pub enums: Seq<(String, EnumInfoModel)>,
    pub enum_defs: Seq<EnumModel>,
    pub next_binding: u32,
    pub next_function: u32,
    pub next_enum: u32,
    pub next_variant: u32,
}

// ── Maps keyed by name ───────────────────────────────────────────────────────

/// The names of a keyed sequence.
pub open spec fn keys<T>(s: Seq<(String, T)>) -> Seq<Seq<char>> {
    s.map_values(|p: (String, T)| p.0@)
}

/// The first index at or after `from` whose name is `key`.
pub open spec fn key_index(ks: Seq<Seq<char>>, key: Seq<char>, from: int) -> Option<int>
    decreases ks.len() - from,
{
    if from < 0 || from >= ks.len() {
        None
    } else if ks[from] == key {
        Some(from)
    } else {
        key_index(ks, key, from + 1)
    }
}

/// The entry named `key` (the first one).
pub open spec fn assoc_get<T>(s: Seq<(String, T)>, key: Seq<char>) -> Option<T> {
    match key_index(keys(s), key, 0) {
        Some(i) => Some(s[i].1),
        None => None,
    }
}

/// Insert or replace the entry named `key`; a replaced entry keeps its
/// place and its key.
pub open spec fn assoc_insert<T>(s: Seq<(String, T)>, key: String, v: T) -> Seq<(String, T)> {
    match key_index(keys(s), key@, 0) {
        Some(i) => s.update(i, (s[i].0, v)),
        None => s.push((key, v)),
    }
}

pub proof fn lemma_key_index(ks: Seq<Seq<char>>, key: Seq<char>, from: int)
    requires
        0 <= from,
    ensures
        match key_index(ks, key, from) {
            Some(j) => from <= j < ks.len() && ks[j] == key && forall|k: int|
                from <= k < j ==> ks[k] != key,
            None => forall|k: int| from <= k < ks.len() ==> ks[k] != key,
        },
    decreases ks.len() - from,
{
    if from < ks.len() && ks[from] != key {
        lemma_key_index(ks, key, from + 1);
    }
}

// ── Model of the analyzer's basic operations ─────────────────────────────────

impl AnalyzerModel {
    pub open spec fn with_scopes(self, scopes: Seq<Seq<(String, VarInfo)>>) -> AnalyzerModel {
        AnalyzerModel { scopes, ..self }
    }

    pub open spec fn push_scope(self) -> AnalyzerModel {
        self.with_scopes(self.scopes.push(Seq::empty()))
    }

    pub open spec fn pop_scope(self) -> AnalyzerModel {
        if self.scopes.len() > 0 {
            self.with_scopes(self.scopes.drop_last())
        } else {
            self
        }
    }
}

} // verus!

verus! {

pub open spec fn expr_result(r: Result<SemanticExpr, SemanticError>) -> Result<ExprModel, ErrorModel> {
    match r {
        Ok(e) => Ok(expr_model(e)),
        Err(e) => Err(err_model(e)),
    }
}

pub open spec fn funcs_model(s: Seq<(String, FunctionInfo)>) -> Seq<(String, FuncInfoModel)> {
    s.map_values(|p: (String, FunctionInfo)| (p.0, func_info_model(p.1)))
}

pub open spec fn enums_model(s: Seq<(String, EnumInfo)>) -> Seq<(String, EnumInfoModel)> {
    s.map_values(|p: (String, EnumInfo)| (p.0, enum_info_model(p.1)))
}

pub proof fn lemma_args_model_push(s: Seq<SemanticCallArg>, a: SemanticCallArg)
    ensures
        args_model(s.push(a)) == args_model(s).push(arg_model(a)),
{
    assert(s.push(a).drop_last() =~= s);
}

pub proof fn lemma_stmts_model_push(s: Seq<SemanticStmt>, a: SemanticStmt)
    ensures
        stmts_model(s.push(a)) == stmts_model(s).push(stmt_model(a)),
{
    assert(s.push(a).drop_last() =~= s);
}

pub proof fn lemma_arms_model_push(s: Seq<SemanticWhenArm>, a: SemanticWhenArm)
    ensures
        arms_model(s.push(a)) == arms_model(s).push(arm_model(a)),
{
    assert(s.push(a).drop_last() =~= s);
}


pub open spec fn stmt_result(r: Result<SemanticStmt, SemanticError>) -> Result<StmtModel, ErrorModel> {
    match r {
        Ok(s) => Ok(stmt_model(s)),
        Err(e) => Err(err_model(e)),
    }
}

pub open spec fn stmts_result(r: Result<Vec<SemanticStmt>, SemanticError>) -> Result<Seq<StmtModel>, ErrorModel> {
    match r {
        Ok(v) => Ok(stmts_model(v@)),
        Err(e) => Err(err_model(e)),
    }
}


pub proof fn lemma_stmts_model_concat(a: Seq<SemanticStmt>, b: Seq<SemanticStmt>)
    ensures
        stmts_model(a + b) == stmts_model(a) + stmts_model(b),
    decreases b.len(),
{
    if b.len() == 0 {
        assert(a + b =~= a);
        assert(stmts_model(a) + stmts_model(b) =~= stmts_model(a));
    } else {
        lemma_stmts_model_concat(a, b.drop_last());
        assert((a + b).drop_last() =~= a + b.drop_last());
        assert((a + b).last() == b.last());
        assert(stmts_model(a + b) =~= stmts_model(a) + stmts_model(b));
    }
}

pub open spec fn arm_result(r: Result<SemanticWhenArm, SemanticError>) -> Result<ArmModel, ErrorModel> {
    match r {
        Ok(a) => Ok(arm_model(a)),
        Err(e) => Err(err_model(e)),
    }
}


pub open spec fn program_result(r: Result<SemanticProgram, Vec<SemanticError>>) -> Result<
    (Seq<StmtModel>, Seq<EnumModel>),
    Seq<ErrorModel>,
> {
    match r {
        Ok(p) => Ok((stmts_model(p.stmts@), p.enums@.map_values(|e: SemanticEnum| enum_model(e)))),
        Err(v) => Err(v@.map_values(|e: SemanticError| err_model(e))),
    }
}

} // verus!
