//! The resolved, typed program that semantic analysis produces.
use vstd::prelude::*;
use crate::frontend::ast::{Op, Type};

verus! {

/// A resolved variable binding.
#[derive(Debug, Clone, Copy, PartialEq, Eq, Hash, Structural)]
pub struct BindingId(pub u32);

/// A resolved function.
#[derive(Debug, Clone, Copy, PartialEq, Eq, Hash, Structural)]
pub struct FunctionId(pub u32);

/// A declared enum.
#[derive(Debug, Clone, Copy, PartialEq, Eq, Hash, Structural)]
pub struct EnumId(pub u32);

/// A declared enum variant.
#[derive(Debug, Clone, Copy, PartialEq, Eq, Hash, Structural)]
pub struct EnumVariantId(pub u32);

/// Types after analysis. `Numeric` stands for "some number, width not yet
/// known".
#[derive(Debug, PartialEq, Eq)]
pub enum SemanticType {
    I8,
    I16,
    I32,
    I64,
    I128,
    F64,
    Bool,
    Str,
    StrRef,
    Container,
    Char,
    Enum(String),
    Unknown,
    Handle(Box<SemanticType>),
    Numeric,
    TypeParam(String),
}

impl Clone for SemanticType {
    fn clone(&self) -> (r: Self)
        ensures
            r == *self,
        decreases self,
    {
        match self {
            SemanticType::I8 => SemanticType::I8,
            SemanticType::I16 => SemanticType::I16,
            SemanticType::I32 => SemanticType::I32,
            SemanticType::I64 => SemanticType::I64,
            SemanticType::I128 => SemanticType::I128,
            SemanticType::F64 => SemanticType::F64,
            SemanticType::Bool => SemanticType::Bool,
            SemanticType::Str => SemanticType::Str,
            SemanticType::StrRef => SemanticType::StrRef,
            SemanticType::Container => SemanticType::Container,
            SemanticType::Char => SemanticType::Char,
            SemanticType::Enum(n) => SemanticType::Enum(n.clone()),
            SemanticType::Unknown => SemanticType::Unknown,
            SemanticType::Handle(inner) => SemanticType::Handle(Box::new((**inner).clone())),
            SemanticType::Numeric => SemanticType::Numeric,
            SemanticType::TypeParam(n) => SemanticType::TypeParam(n.clone()),
        }
    }
}

/// A literal after analysis; enum variants carry their resolved ids.
#[derive(Debug, Clone, PartialEq)]
pub enum SemanticValue {
    Num(u128),
    /// IEEE-754 bit pattern of a 64-bit float.
    Float(u64),
    Str(String),
    Bool(bool),
    Char(char),
    EnumVariant {
        enum_name: String,
        variant_name: String,
        enum_id: Option<EnumId>,
        variant_id: Option<EnumVariantId>,
    },
    Unknown,
}

/// A typed expression.
#[derive(Debug, PartialEq)]
pub struct SemanticExpr {
    pub ty: SemanticType,
    pub kind: SemanticExprKind,
}

#[derive(Debug, PartialEq)]
pub enum SemanticExprKind {
    Value(SemanticValue),
    VarRef { binding: BindingId, name: String },
    DotAccess { binding: Option<BindingId>, container: String, field: String },
    HandleNew { value: Box<SemanticExpr>, pos: usize },
    HandleVal { binding: BindingId, name: String, pos: usize },
    HandleDrop { binding: BindingId, name: String, pos: usize },
    Call { callee: String, function: FunctionId, args: Vec<SemanticCallArg> },
    Range { start: Box<SemanticExpr>, end: Box<SemanticExpr>, inclusive: bool },
    Unary { op: Op, expr: Box<SemanticExpr>, pos: usize },
    Binary { lhs: Box<SemanticExpr>, op: Op, pos: usize, rhs: Box<SemanticExpr> },
    Cast { expr: Box<SemanticExpr>, from: SemanticType, to: SemanticType },
}

#[derive(Debug, PartialEq)]
pub enum SemanticCallArg {
    Expr(SemanticExpr),
    Copy { binding: BindingId, name: String },
    CopyFree { binding: BindingId, name: String },
    CopyInto(Vec<ResolvedBinding>),
}

#[derive(Debug, Clone, PartialEq, Eq)]
pub struct ResolvedBinding {
    pub binding: BindingId,
    pub name: String,
}

/// An assignment target after analysis.
#[derive(Debug, PartialEq)]
pub enum SemanticLValue {
    Binding { binding: BindingId, name: String, ty: SemanticType },
    DotAccess { binding: Option<BindingId>, container: String, field: String, ty: SemanticType },
}

#[derive(Debug, Clone, PartialEq)]
pub enum SemanticWhenPattern {
    Literal(SemanticValue),
    Range(SemanticValue, SemanticValue, bool),
    EnumVariant {
        enum_name: String,
        variant_name: String,
        enum_id: Option<EnumId>,
        variant_id: Option<EnumVariantId>,
    },
    Catchall,
}

#[derive(Debug, PartialEq)]
pub struct SemanticWhenArm {
    pub pattern: SemanticWhenPattern,
    pub body: Vec<SemanticStmt>,
    pub pos: usize,
}

#[derive(Debug, Clone, Copy, PartialEq, Eq, Structural)]
pub enum SemanticParamKind {
    Typed,
    Copy,
    CopyFree,
    CopyInto,
}

#[derive(Debug, Clone, PartialEq)]
pub struct SemanticParam {
    pub binding: BindingId,
    pub name: String,
    pub kind: SemanticParamKind,
    pub ty: Option<SemanticType>,
}

#[derive(Debug, Clone, PartialEq)]
pub struct SemanticEnumGroup {
    pub name: String,
    pub variants: Vec<EnumVariantId>,
}

#[derive(Debug, Clone, PartialEq)]
pub struct SemanticEnumVariant {
    pub id: EnumVariantId,
    pub name: String,
    pub enum_id: EnumId,
    pub group: Option<String>,
}

#[derive(Debug, Clone, PartialEq)]
pub struct SemanticEnum {
    pub id: EnumId,
    pub name: String,
    pub declared_ty: Type,
    pub variants: Vec<SemanticEnumVariant>,
    pub groups: Vec<SemanticEnumGroup>,
}

#[derive(Debug, PartialEq)]
pub struct SemanticFunction {
    pub id: FunctionId,
    pub name: String,
    pub type_params: Vec<String>,
    pub params: Vec<SemanticParam>,
    pub return_ty: Option<SemanticType>,
    pub body: Vec<SemanticStmt>,
    pub ret_expr: Option<SemanticExpr>,
    pub pos: usize,
}

#[allow(inconsistent_fields)]
#[derive(Debug, PartialEq)]
pub enum SemanticStmt {
    EnumDef { enum_id: EnumId, name: String, variants: Vec<String>, pos: usize },
    Decl { binding: BindingId, name: String, ty: Option<SemanticType>, pos: usize },
    Assign { target: SemanticLValue, expr: SemanticExpr, pos_eq: usize },
    TypedAssign { binding: BindingId, name: String, ty: SemanticType, expr: SemanticExpr, pos_type: usize },
    CompoundAssign { binding: Option<BindingId>, name: String, op: Op, operand: SemanticExpr, pos: usize },
    Print { expr: SemanticExpr, pos: usize },
    PrintInline { expr: SemanticExpr, pos: usize },
    ExprStmt { expr: SemanticExpr, pos: usize },
    Return { expr: Option<SemanticExpr>, pos: usize },
    FuncDef(SemanticFunction),
    Block { stmts: Vec<SemanticStmt>, pos: usize },
    While { cond: SemanticExpr, body: Vec<SemanticStmt>, pos: usize },
    For {
        binding: BindingId,
        var: String,
        start: SemanticExpr,
        end: SemanticExpr,
        inclusive: bool,
        body: Vec<SemanticStmt>,
        pos: usize,
    },
    Loop { body: Vec<SemanticStmt>, pos: usize },
    Break { pos: usize },
    Continue { pos: usize },
    When { expr: SemanticExpr, arms: Vec<SemanticWhenArm>, pos: usize },
}

/// The analysed program: its statements and the enums it declares.
#[derive(Debug, PartialEq)]
pub struct SemanticProgram {
    pub stmts: Vec<SemanticStmt>,
    pub enums: Vec<SemanticEnum>,
}

} // verus!
