//! The syntax tree the parser produces.
use vstd::prelude::*;

verus! {

/// Binary and unary operators.
#[derive(Debug, Clone, Copy, PartialEq, Eq, Structural)]
pub enum Op {
    Plus,
    Minus,
    Mul,
    Div,
    Mod,
    EqEq,
    Lt,
    Gt,
    LtEq,
    GtEq,
    And,
    Or,
}

/// One argument of a call: an expression, or a variable passed by copy
/// (`x.copy`, `x.copy.free`) or bled back into a container (`copy_into`).
#[derive(Debug)]
pub enum CallArg {
    Expr(Expr),
    Copy(String),
    CopyFree(String),
    CopyInto(Vec<String>),
}

/// One parameter of a function definition.
#[derive(Debug)]
pub enum ParamKind {
    Typed(String, Type),
    Copy(String),
    CopyFree(String),
    CopyInto(String, Vec<String>),
}

/// A type as written in source.
#[derive(Debug, PartialEq, Eq)]
pub enum Type {
    T8,
    T16,
    T32,
    T64,
    T128,
    Bool,
    Str,
    StrRef,
    Container,
    Char,
    Enum(String),
    Unknown,
    Handle(Box<Type>),
    /// A type parameter of a generic function.
    TypeParam(String),
}

impl Clone for Type {
    fn clone(&self) -> (r: Self)
        ensures
            r == *self,
        decreases self,
    {
        match self {
            Type::T8 => Type::T8,
            Type::T16 => Type::T16,
            Type::T32 => Type::T32,
            Type::T64 => Type::T64,
            Type::T128 => Type::T128,
            Type::Bool => Type::Bool,
            Type::Str => Type::Str,
            Type::StrRef => Type::StrRef,
            Type::Container => Type::Container,
            Type::Char => Type::Char,
            Type::Enum(n) => Type::Enum(n.clone()),
            Type::Unknown => Type::Unknown,
            Type::Handle(inner) => Type::Handle(Box::new((**inner).clone())),
            Type::TypeParam(n) => Type::TypeParam(n.clone()),
        }
    }
}

/// A literal value. Float literals are held as their IEEE-754 bit pattern.
#[derive(Debug, Clone, PartialEq)]
pub enum AstValue {
    Num(u128),
    Float(u64),
    Str(String),
    Bool(bool),
    Char(char),
    EnumVariant(String, String),
    Unknown,
}

/// Expressions. The `usize` fields are source positions.
#[derive(Debug)]
pub enum Expr {
    Val(AstValue),
    Ident(String, usize),
    DotAccess(String, String),
    HandleNew(Box<Expr>, usize),
    HandleVal(String, usize),
    HandleDrop(String, usize),
    Call(String, Vec<CallArg>, usize),
    Range(Box<Expr>, Box<Expr>, bool),
    Unary(Op, Box<Expr>, usize),
    Bin(Box<Expr>, Op, usize, Box<Expr>),
}

/// What one arm of a `when` matches.
#[derive(Debug)]
pub enum WhenPattern {
    Literal(AstValue),
    Range(AstValue, AstValue, bool),
    EnumVariant(String, String),
    Group(String, String),
    Catchall,
    Placeholder,
}

/// One handler of a super-group arm: statements, or `{_}` deferring to an
/// explicit arm of the sub-group.
#[derive(Debug)]
pub enum SuperGroupHandler {
    Stmts(Vec<Stmt>),
    Placeholder,
}

#[derive(Debug)]
pub enum WhenBody {
    Stmts(Vec<Stmt>),
    SuperGroup(Vec<SuperGroupHandler>),
}

#[derive(Debug)]
pub struct WhenArm {
    pub pattern: WhenPattern,
    pub body: WhenBody,
    pub pos: usize,
}

/// Statements.
#[allow(inconsistent_fields)]
#[derive(Debug)]
pub enum Stmt {
    EnumDef {
        name: String,
        variants: Vec<String>,
        groups: Vec<(String, Vec<String>)>,
        super_groups: Vec<(String, Vec<(String, Vec<String>)>)>,
        pos: usize,
    },
    Decl { name: String, ty: Option<Type>, pos: usize },
    Assign { target: Expr, expr: Expr, pos_eq: usize },
    TypedAssign { name: String, ty: Type, expr: Expr, pos_type: usize },
    CompoundAssign { name: String, op: Op, operand: Expr, pos: usize },
    Print { expr: Expr, pos: usize },
    PrintInline { expr: Expr, _pos: usize },
    ExprStmt { expr: Expr, _pos: usize },
    Return { expr: Option<Expr>, pos: usize },
    FuncDef {
        name: String,
        type_params: Vec<String>,
        params: Vec<ParamKind>,
        ret_ty: Option<Type>,
        body: Vec<Stmt>,
        ret_expr: Option<Expr>,
        pos: usize,
    },
    Block { stmts: Vec<Stmt>, _pos: usize },
    While { cond: Expr, body: Vec<Stmt>, pos: usize },
    For { var: String, start: Expr, end: Expr, inclusive: bool, body: Vec<Stmt>, pos: usize },
    Loop { body: Vec<Stmt>, pos: usize },
    Break { pos: usize },
    Continue { pos: usize },
    When { expr: Expr, arms: Vec<WhenArm>, pos: usize },
}

/// A whole program: its top-level statements.
#[derive(Debug)]
pub struct Program {
    pub stmts: Vec<Stmt>,
}


/// The source position an expression reports: that of its operator, name
/// or call, of its start for a range, and 0 for a literal or a field read.
pub open spec fn expr_position(e: Expr) -> int
    decreases e,
{
    match e {
        Expr::Val(_) => 0,
        Expr::Ident(_, pos) => pos as int,
        Expr::DotAccess(_, _) => 0,
        Expr::HandleNew(_, pos) => pos as int,
        Expr::HandleVal(_, pos) => pos as int,
        Expr::HandleDrop(_, pos) => pos as int,
        Expr::Call(_, _, pos) => pos as int,
        Expr::Unary(_, _, pos) => pos as int,
        Expr::Range(a, _, _) => expr_position(*a),
        Expr::Bin(_, _, pos, _) => pos as int,
    }
}

/// The source position an expression reports (see [`expr_position`]).
pub fn expr_pos(expr: &Expr) -> (p: usize)
    ensures
        p == expr_position(*expr),
    decreases expr,
{
    match expr {
        Expr::Val(_) => 0,
        Expr::Ident(_, pos) => *pos,
        Expr::DotAccess(_, _) => 0,
        Expr::HandleNew(_, pos) => *pos,
        Expr::HandleVal(_, pos) => *pos,
        Expr::HandleDrop(_, pos) => *pos,
        Expr::Call(_, _, pos) => *pos,
        Expr::Unary(_, _, pos) => *pos,
        Expr::Range(a, _, _) => expr_pos(a),
        Expr::Bin(_, _, pos, _) => *pos,
    }
}

} // verus!
