//! The block-structured SSA intermediate representation that backends
//! consume.
use vstd::prelude::*;

verus! {

/// Scalar types of IR values.
#[derive(Clone, Copy, Debug, PartialEq, Eq, Structural)]
pub enum IrType {
    I8,
    I16,
    I32,
    I64,
    I128,
    F64,
    Bool,
    /// Three-state boolean: false, true, unknown.
    TBool,
    Ptr,
}

/// An SSA value.
#[derive(Clone, Copy, Debug, PartialEq, Eq, Hash, Structural)]
pub struct ValueId(pub u32);

/// A basic block.
#[derive(Clone, Copy, Debug, PartialEq, Eq, Hash, Structural)]
pub struct BlockId(pub u32);

/// Arithmetic operators of `IrInst::Binary`.
#[derive(Clone, Copy, Debug, PartialEq, Eq, Structural)]
pub enum IrBinOp {
    Add,
    Sub,
    Mul,
    Div,
    Rem,
    And,
    Or,
}

/// Comparison operators of `IrInst::Compare`.
#[derive(Clone, Copy, Debug, PartialEq, Eq, Structural)]
pub enum IrRelOp {
    Eq,
    Ne,
    Lt,
    Le,
    Gt,
    Ge,
}

/// One non-terminating instruction of a block.
#[allow(inconsistent_fields)]
#[derive(Clone, Debug, PartialEq)]
pub enum IrInst {
    ConstInt { dst: ValueId, ty: IrType, value: i64 },
    /// A 64-bit float constant, held as its IEEE-754 bit pattern.
    ConstFloat { dst: ValueId, bits: u64 },
    SsaBind { dst: ValueId, ty: IrType, src: ValueId },
    Binary { dst: ValueId, op: IrBinOp, ty: IrType, lhs: ValueId, rhs: ValueId },
    Compare { dst: ValueId, op: IrRelOp, lhs: ValueId, rhs: ValueId },
    Call { dst: Option<ValueId>, callee: String, args: Vec<ValueId>, return_ty: Option<IrType> },
    Cast { dst: ValueId, from: IrType, to: IrType, value: ValueId },
    Alloca { dst: ValueId, size: u32, align: u32 },
    PtrOffset { dst: ValueId, base: ValueId, offset: i64 },
    PtrAdd { dst: ValueId, base: ValueId, offset: ValueId },
    Load { dst: ValueId, ty: IrType, ptr: ValueId },
    Store { ptr: ValueId, value: ValueId },
}

/// How a block ends.
#[derive(Clone, Debug, PartialEq)]
pub enum IrTerminator {
    Jump { target: BlockId, args: Vec<ValueId> },
    Branch {
        cond: ValueId,
        then_block: BlockId,
        then_args: Vec<ValueId>,
        else_block: BlockId,
        else_args: Vec<ValueId>,
    },
    Return { value: Option<ValueId> },
}

/// A whole lowered program.
#[derive(Clone, Debug, PartialEq)]
pub struct IrModule {
    pub debug_name: String,
    pub functions: Vec<IrFunction>,
}

/// One function: parameters, return type and blocks (the first is the entry).
#[derive(Clone, Debug, PartialEq)]
pub struct IrFunction {
    pub name: String,
    pub params: Vec<IrParam>,
    pub return_ty: Option<IrType>,
    pub blocks: Vec<IrBlock>,
}

#[derive(Clone, Debug, PartialEq, Eq)]
pub struct IrParam {
    pub name: String,
    pub ty: IrType,
}

#[derive(Clone, Debug, PartialEq)]
pub struct IrBlock {
    pub id: BlockId,
    pub params: Vec<BlockParam>,
    pub insts: Vec<IrInst>,
    pub term: IrTerminator,
}

/// A value a block receives from its predecessors.
#[derive(Clone, Copy, Debug, PartialEq, Eq, Structural)]
pub struct BlockParam {
    pub value: ValueId,
    pub ty: IrType,
}

} // verus!
