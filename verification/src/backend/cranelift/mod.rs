//! Cranelift lowering skeleton: walks a module and reports, with full
//! context, the first construct it cannot lower yet.
pub mod aot;
pub mod jit;

use vstd::prelude::*;
use cranelift_codegen::ir::types::Type as ClifType;
use crate::ir::types::{BlockId, IrBinOp, IrBlock, IrFunction, IrInst, IrModule, IrRelOp, IrTerminator, IrType, ValueId};
use crate::text::{decimal, hexadecimal, push_decimal, push_hex, push_signed, push_str, signed_decimal};

verus! {

/// The Cranelift backend.
pub struct CraneliftBackend;

#[verifier::external_type_specification]
#[verifier::external_body]
pub struct ExClifType(ClifType);

/// The Cranelift integer type `bits` wide (what `Type::int(bits)` yields).
pub uninterp spec fn clif_int_type(bits: u16) -> ClifType;

/// The Cranelift float type `bits` wide.
pub uninterp spec fn clif_float_type(bits: u16) -> ClifType;

/// `Type::int(bits)`, which yields the integer type of that width for
/// 8, 16, 32, 64 and 128 bits.
#[verifier::external_body]
fn clif_int(bits: u16) -> (t: ClifType)
    requires
        bits == 8 || bits == 16 || bits == 32 || bits == 64 || bits == 128,
    ensures
        t == clif_int_type(bits),
{
    ClifType::int(bits).unwrap()
}

/// The constant `types::F64`, the 64-bit float type.
#[verifier::external_body]
fn clif_float(bits: u16) -> (t: ClifType)
    requires
        bits == 64,
    ensures
        t == clif_float_type(bits),
{
    cranelift_codegen::ir::types::F64
}

/// The Cranelift type an IR type maps to.
pub open spec fn clif_type_of(ty: IrType) -> ClifType {
    match ty {
        IrType::I8 => clif_int_type(8),
        IrType::I16 => clif_int_type(16),
        IrType::I32 => clif_int_type(32),
        IrType::I64 => clif_int_type(64),
        IrType::I128 => clif_int_type(128),
        IrType::F64 => clif_float_type(64),
        // booleans are 0/1 and three-state booleans 0/1/2: both fit in i8
        IrType::Bool => clif_int_type(8),
        IrType::TBool => clif_int_type(8),
        // 64-bit pointers on every supported target
        IrType::Ptr => clif_int_type(64),
    }
}

/// Map an IR type to its Cranelift equivalent. Every IR type has one.
pub fn ir_type_to_cranelift(ty: &IrType) -> (r: Result<ClifType, CraneliftLoweringError>)
    ensures
        r matches Ok(t) && t == clif_type_of(*ty),
{
    Ok(match ty {
        IrType::I8 => clif_int(8),
        IrType::I16 => clif_int(16),
        IrType::I32 => clif_int(32),
        IrType::I64 => clif_int(64),
        IrType::I128 => clif_int(128),
        IrType::F64 => clif_float(64),
        IrType::Bool => clif_int(8),
        IrType::TBool => clif_int(8),
        IrType::Ptr => clif_int(64),
    })
}

/// Errors produced by the Cranelift lowering skeleton. Every variant carries
/// enough context to identify the construct that could not be lowered.
#[derive(Debug, Clone)]
pub enum CraneliftLoweringError {
    /// An `IrType` has no direct Cranelift equivalent.
    InvalidIrType { ty: String },
    /// An instruction that is valid IR but not lowered yet.
    UnsupportedInstruction { inst: String, context: String },
    /// A terminator that is valid IR but not lowered yet.
    UnsupportedTerminator { term: String, context: String },
    /// A function-level failure wrapping a lower-level one with the
    /// function's name.
    FunctionLoweringFailed { function: String, reason: String },
}

// ── Rendering of IR pieces (Debug-style) ─────────────────────────────────────

pub open spec fn value_text(v: ValueId) -> Seq<char> {
    "ValueId("@ + decimal(v.0 as nat) + ")"@
}

pub open spec fn block_text(b: BlockId) -> Seq<char> {
    "BlockId("@ + decimal(b.0 as nat) + ")"@
}

pub open spec fn type_text(t: IrType) -> Seq<char> {
    match t {
        IrType::I8 => "I8"@,
        IrType::I16 => "I16"@,
        IrType::I32 => "I32"@,
        IrType::I64 => "I64"@,
        IrType::I128 => "I128"@,
        IrType::F64 => "F64"@,
        IrType::Bool => "Bool"@,
        IrType::TBool => "TBool"@,
        IrType::Ptr => "Ptr"@,
    }
}

pub open spec fn bin_op_text(op: IrBinOp) -> Seq<char> {
    match op {
        IrBinOp::Add => "Add"@,
        IrBinOp::Sub => "Sub"@,
        IrBinOp::Mul => "Mul"@,
        IrBinOp::Div => "Div"@,
        IrBinOp::Rem => "Rem"@,
        IrBinOp::And => "And"@,
        IrBinOp::Or => "Or"@,
    }
}

pub open spec fn rel_op_text(op: IrRelOp) -> Seq<char> {
    match op {
        IrRelOp::Eq => "Eq"@,
        IrRelOp::Ne => "Ne"@,
        IrRelOp::Lt => "Lt"@,
        IrRelOp::Le => "Le"@,
        IrRelOp::Gt => "Gt"@,
        IrRelOp::Ge => "Ge"@,
    }
}

pub open spec fn opt_value_text(v: Option<ValueId>) -> Seq<char> {
    match v {
        Some(x) => "Some("@ + value_text(x) + ")"@,
        None => "None"@,
    }
}

pub open spec fn opt_type_text(t: Option<IrType>) -> Seq<char> {
    match t {
        Some(x) => "Some("@ + type_text(x) + ")"@,
        None => "None"@,
    }
}

/// The first `n` values, comma-separated.
pub open spec fn joined_values(vs: Seq<ValueId>, n: int) -> Seq<char>
    decreases n,
{
    if n <= 0 {
        Seq::empty()
    } else if n == 1 {
        value_text(vs[0])
    } else {
        joined_values(vs, n - 1) + ", "@ + value_text(vs[n - 1])
    }
}

pub open spec fn values_text(vs: Seq<ValueId>) -> Seq<char> {
    "["@ + joined_values(vs, vs.len() as int) + "]"@
}

/// The name an unsupported-instruction error gives `inst`.
pub open spec fn inst_name(inst: IrInst) -> Seq<char> {
    match inst {
        IrInst::ConstInt { .. } => "ConstInt"@,
        IrInst::ConstFloat { .. } => "ConstFloat"@,
        IrInst::SsaBind { .. } => "SsaBind"@,
        IrInst::Binary { .. } => "Binary"@,
        IrInst::Compare { .. } => "Compare"@,
        IrInst::Call { .. } => "Call"@,
        IrInst::Cast { .. } => "Cast"@,
        IrInst::Alloca { .. } => "Alloca"@,
        IrInst::PtrOffset { .. } => "PtrOffset"@,
        IrInst::PtrAdd { .. } => "PtrAdd"@,
        IrInst::Load { .. } => "Load"@,
        IrInst::Store { .. } => "Store"@,
    }
}

/// The operand listing an unsupported-instruction error gives `inst`.
pub open spec fn inst_context(inst: IrInst) -> Seq<char> {
    match inst {
        IrInst::ConstInt { dst, ty, value } => "dst="@ + value_text(dst) + " ty="@ + type_text(ty)
            + " value="@ + signed_decimal(value as int),
        IrInst::ConstFloat { dst, bits } => "dst="@ + value_text(dst) + " bits=0x"@ + hexadecimal(
            bits as nat,
        ),
        IrInst::SsaBind { dst, ty, src } => "dst="@ + value_text(dst) + " ty="@ + type_text(ty)
            + " src="@ + value_text(src),
        IrInst::Binary { dst, op, ty, lhs, rhs } => "dst="@ + value_text(dst) + " op="@ + bin_op_text(
            op,
        ) + " ty="@ + type_text(ty) + " lhs="@ + value_text(lhs) + " rhs="@ + value_text(rhs),
        IrInst::Compare { dst, op, lhs, rhs } => "dst="@ + value_text(dst) + " op="@ + rel_op_text(
            op,
        ) + " lhs="@ + value_text(lhs) + " rhs="@ + value_text(rhs),
        IrInst::Call { dst, callee, args, return_ty } => "callee="@ + callee@ + " args="@
            + values_text(args@) + " dst="@ + opt_value_text(dst) + " return_ty="@ + opt_type_text(
            return_ty,
        ),
        IrInst::Cast { dst, from, to, value } => "dst="@ + value_text(dst) + " from="@ + type_text(
            from,
        ) + " to="@ + type_text(to) + " value="@ + value_text(value),
        IrInst::Alloca { dst, size, align } => "dst="@ + value_text(dst) + " size="@ + decimal(
            size as nat,
        ) + " align="@ + decimal(align as nat),
        IrInst::PtrOffset { dst, base, offset } => "dst="@ + value_text(dst) + " base="@
            + value_text(base) + " offset="@ + signed_decimal(offset as int),
        IrInst::PtrAdd { dst, base, offset } => "dst="@ + value_text(dst) + " base="@ + value_text(
            base,
        ) + " offset="@ + value_text(offset),
        IrInst::Load { dst, ty, ptr } => "dst="@ + value_text(dst) + " ty="@ + type_text(ty)
            + " ptr="@ + value_text(ptr),
        IrInst::Store { ptr, value } => "ptr="@ + value_text(ptr) + " value="@ + value_text(value),
    }
}

/// The name an unsupported-terminator error gives `term`.
pub open spec fn term_name(term: IrTerminator) -> Seq<char> {
    match term {
        IrTerminator::Jump { .. } => "Jump"@,
        IrTerminator::Branch { .. } => "Branch"@,
        IrTerminator::Return { .. } => "Return"@,
    }
}

/// The operand listing an unsupported-terminator error gives `term`.
pub open spec fn term_context(term: IrTerminator) -> Seq<char> {
    match term {
        IrTerminator::Jump { target, args } => "target="@ + block_text(target) + " args="@
            + values_text(args@),
        IrTerminator::Branch { cond, then_block, then_args, else_block, else_args } => "cond="@
            + value_text(cond) + " then="@ + block_text(then_block) + " then_args="@ + values_text(
            then_args@,
        ) + " else="@ + block_text(else_block) + " else_args="@ + values_text(else_args@),
        IrTerminator::Return { value } => "value="@ + opt_value_text(value),
    }
}

/// The text of an error (what `Display` would print).
pub open spec fn message_of(e: CraneliftLoweringError) -> Seq<char> {
    match e {
        CraneliftLoweringError::InvalidIrType { ty } => "IrType '"@ + ty@ + "' has no Cranelift equivalent"@,
        CraneliftLoweringError::UnsupportedInstruction { inst, context } => "unsupported instruction '"@
            + inst@ + "': "@ + context@,
        CraneliftLoweringError::UnsupportedTerminator { term, context } => "unsupported terminator '"@
            + term@ + "': "@ + context@,
        CraneliftLoweringError::FunctionLoweringFailed { function, reason } => "failed to lower function '"@
            + function@ + "': "@ + reason@,
    }
}

/// `e` is the unsupported-instruction error for `inst`.
pub open spec fn is_inst_error(e: CraneliftLoweringError, inst: IrInst) -> bool {
    e matches CraneliftLoweringError::UnsupportedInstruction { inst: n, context: c } && n@ == inst_name(
        inst,
    ) && c@ == inst_context(inst)
}

/// `e` is the unsupported-terminator error for `term`.
pub open spec fn is_term_error(e: CraneliftLoweringError, term: IrTerminator) -> bool {
    e matches CraneliftLoweringError::UnsupportedTerminator { term: n, context: c } && n@ == term_name(
        term,
    ) && c@ == term_context(term)
}

/// The error lowering `b` stops at: its first instruction's, or its
/// terminator's when it has no instructions.
pub open spec fn is_block_error(e: CraneliftLoweringError, b: IrBlock) -> bool {
    if b.insts@.len() > 0 {
        is_inst_error(e, b.insts@[0])
    } else {
        is_term_error(e, b.term)
    }
}

/// The message of the error lowering `b` stops at.
pub open spec fn block_message(b: IrBlock) -> Seq<char> {
    if b.insts@.len() > 0 {
        "unsupported instruction '"@ + inst_name(b.insts@[0]) + "': "@ + inst_context(b.insts@[0])
    } else {
        "unsupported terminator '"@ + term_name(b.term) + "': "@ + term_context(b.term)
    }
}

/// Why lowering the function `f` fails: its first block's error, or the
/// lack of any block.
pub open spec fn function_reason(f: IrFunction) -> Seq<char> {
    if f.blocks@.len() > 0 {
        block_message(f.blocks@[0])
    } else {
        "function has no blocks"@
    }
}

fn push_value(s: &mut String, v: ValueId)
    ensures
        final(s)@ == old(s)@ + value_text(v),
{
    push_str(s, "ValueId(");
    push_decimal(s, v.0 as u128);
    push_str(s, ")");
    proof {
        assert(final(s)@ =~= old(s)@ + value_text(v));
    }
}

fn push_block(s: &mut String, b: BlockId)
    ensures
        final(s)@ == old(s)@ + block_text(b),
{
    push_str(s, "BlockId(");
    push_decimal(s, b.0 as u128);
    push_str(s, ")");
    proof {
        assert(final(s)@ =~= old(s)@ + block_text(b));
    }
}

fn push_type(s: &mut String, t: IrType)
    ensures
        final(s)@ == old(s)@ + type_text(t),
{
    match t {
        IrType::I8 => push_str(s, "I8"),
        IrType::I16 => push_str(s, "I16"),
        IrType::I32 => push_str(s, "I32"),
        IrType::I64 => push_str(s, "I64"),
        IrType::I128 => push_str(s, "I128"),
        IrType::F64 => push_str(s, "F64"),
        IrType::Bool => push_str(s, "Bool"),
        IrType::TBool => push_str(s, "TBool"),
        IrType::Ptr => push_str(s, "Ptr"),
    }
}

fn push_bin_op(s: &mut String, op: IrBinOp)
    ensures
        final(s)@ == old(s)@ + bin_op_text(op),
{
    match op {
        IrBinOp::Add => push_str(s, "Add"),
        IrBinOp::Sub => push_str(s, "Sub"),
        IrBinOp::Mul => push_str(s, "Mul"),
        IrBinOp::Div => push_str(s, "Div"),
        IrBinOp::Rem => push_str(s, "Rem"),
        IrBinOp::And => push_str(s, "And"),
        IrBinOp::Or => push_str(s, "Or"),
    }
}

fn push_rel_op(s: &mut String, op: IrRelOp)
    ensures
        final(s)@ == old(s)@ + rel_op_text(op),
{
    match op {
        IrRelOp::Eq => push_str(s, "Eq"),
        IrRelOp::Ne => push_str(s, "Ne"),
        IrRelOp::Lt => push_str(s, "Lt"),
        IrRelOp::Le => push_str(s, "Le"),
        IrRelOp::Gt => push_str(s, "Gt"),
        IrRelOp::Ge => push_str(s, "Ge"),
    }
}

fn push_opt_value(s: &mut String, v: Option<ValueId>)
    ensures
        final(s)@ == old(s)@ + opt_value_text(v),
{
    match v {
        Some(x) => {
            push_str(s, "Some(");
            push_value(s, x);
            push_str(s, ")");
            proof {
                assert(final(s)@ =~= old(s)@ + opt_value_text(v));
            }
        },
        None => push_str(s, "None"),
    }
}

fn push_opt_type(s: &mut String, t: Option<IrType>)
    ensures
        final(s)@ == old(s)@ + opt_type_text(t),
{
    match t {
        Some(x) => {
            push_str(s, "Some(");
            push_type(s, x);
            push_str(s, ")");
            proof {
                assert(final(s)@ =~= old(s)@ + opt_type_text(t));
            }
        },
        None => push_str(s, "None"),
    }
}

fn push_values(s: &mut String, vs: &Vec<ValueId>)
    ensures
        final(s)@ == old(s)@ + values_text(vs@),
{
    push_str(s, "[");
    let ghost start = s@;
    let mut i: usize = 0;
    while i < vs.len()
        invariant
            i <= vs@.len(),
            start == old(s)@ + "["@,
            s@ == start + joined_values(vs@, i as int),
        decreases vs@.len() - i,
    {
        if i > 0 {
            push_str(s, ", ");
        }
        push_value(s, vs[i]);
        i = i + 1;
        proof {
            assert(s@ =~= start + joined_values(vs@, i as int));
        }
    }
    push_str(s, "]");
    proof {
        assert(final(s)@ =~= old(s)@ + values_text(vs@));
    }
}

/// The operand listing of `inst` as a `String`.
fn render_inst_context(inst: &IrInst) -> (s: String)
    ensures
        s@ == inst_context(*inst),
{
    let mut s = String::new();
    match inst {
        IrInst::ConstInt { dst, ty, value } => {
            push_str(&mut s, "dst=");
            push_value(&mut s, *dst);
            push_str(&mut s, " ty=");
            push_type(&mut s, *ty);
            push_str(&mut s, " value=");
            push_signed(&mut s, *value);
        },
        IrInst::ConstFloat { dst, bits } => {
            push_str(&mut s, "dst=");
            push_value(&mut s, *dst);
            push_str(&mut s, " bits=0x");
            push_hex(&mut s, *bits as u128);
        },
        IrInst::SsaBind { dst, ty, src } => {
            push_str(&mut s, "dst=");
            push_value(&mut s, *dst);
            push_str(&mut s, " ty=");
            push_type(&mut s, *ty);
            push_str(&mut s, " src=");
            push_value(&mut s, *src);
        },
        IrInst::Binary { dst, op, ty, lhs, rhs } => {
            push_str(&mut s, "dst=");
            push_value(&mut s, *dst);
            push_str(&mut s, " op=");
            push_bin_op(&mut s, *op);
            push_str(&mut s, " ty=");
            push_type(&mut s, *ty);
            push_str(&mut s, " lhs=");
            push_value(&mut s, *lhs);
            push_str(&mut s, " rhs=");
            push_value(&mut s, *rhs);
        },
        IrInst::Compare { dst, op, lhs, rhs } => {
            push_str(&mut s, "dst=");
            push_value(&mut s, *dst);
            push_str(&mut s, " op=");
            push_rel_op(&mut s, *op);
            push_str(&mut s, " lhs=");
            push_value(&mut s, *lhs);
            push_str(&mut s, " rhs=");
            push_value(&mut s, *rhs);
        },
        IrInst::Call { dst, callee, args, return_ty } => {
            push_str(&mut s, "callee=");
            push_str(&mut s, callee.as_str());
            push_str(&mut s, " args=");
            push_values(&mut s, args);
            push_str(&mut s, " dst=");
            push_opt_value(&mut s, *dst);
            push_str(&mut s, " return_ty=");
            push_opt_type(&mut s, *return_ty);
        },
        IrInst::Cast { dst, from, to, value } => {
            push_str(&mut s, "dst=");
            push_value(&mut s, *dst);
            push_str(&mut s, " from=");
            push_type(&mut s, *from);
            push_str(&mut s, " to=");
            push_type(&mut s, *to);
            push_str(&mut s, " value=");
            push_value(&mut s, *value);
        },
        IrInst::Alloca { dst, size, align } => {
            push_str(&mut s, "dst=");
            push_value(&mut s, *dst);
            push_str(&mut s, " size=");
            push_decimal(&mut s, *size as u128);
            push_str(&mut s, " align=");
            push_decimal(&mut s, *align as u128);
        },
        IrInst::PtrOffset { dst, base, offset } => {
            push_str(&mut s, "dst=");
            push_value(&mut s, *dst);
            push_str(&mut s, " base=");
            push_value(&mut s, *base);
            push_str(&mut s, " offset=");
            push_signed(&mut s, *offset);
        },
        IrInst::PtrAdd { dst, base, offset } => {
            push_str(&mut s, "dst=");
            push_value(&mut s, *dst);
            push_str(&mut s, " base=");
            push_value(&mut s, *base);
            push_str(&mut s, " offset=");
            push_value(&mut s, *offset);
        },
        IrInst::Load { dst, ty, ptr } => {
            push_str(&mut s, "dst=");
            push_value(&mut s, *dst);
            push_str(&mut s, " ty=");
            push_type(&mut s, *ty);
            push_str(&mut s, " ptr=");
            push_value(&mut s, *ptr);
        },
        IrInst::Store { ptr, value } => {
            push_str(&mut s, "ptr=");
            push_value(&mut s, *ptr);
            push_str(&mut s, " value=");
            push_value(&mut s, *value);
        },
    }
    proof {
        assert(s@ =~= inst_context(*inst));
    }
    s
}

/// The operand listing of `term` as a `String`.
fn render_term_context(term: &IrTerminator) -> (s: String)
    ensures
        s@ == term_context(*term),
{
    let mut s = String::new();
    match term {
        IrTerminator::Jump { target, args } => {
            push_str(&mut s, "target=");
            push_block(&mut s, *target);
            push_str(&mut s, " args=");
            push_values(&mut s, args);
        },
        IrTerminator::Branch { cond, then_block, then_args, else_block, else_args } => {
            push_str(&mut s, "cond=");
            push_value(&mut s, *cond);
            push_str(&mut s, " then=");
            push_block(&mut s, *then_block);
            push_str(&mut s, " then_args=");
            push_values(&mut s, then_args);
            push_str(&mut s, " else=");
            push_block(&mut s, *else_block);
            push_str(&mut s, " else_args=");
            push_values(&mut s, else_args);
        },
        IrTerminator::Return { value } => {
            push_str(&mut s, "value=");
            push_opt_value(&mut s, *value);
        },
    }
    proof {
        assert(s@ =~= term_context(*term));
    }
    s
}

impl CraneliftLoweringError {
    /// The error's text, as `Display` would print it.
    pub fn message(&self) -> (s: String)
        ensures
            s@ == message_of(*self),
    {
        let mut s = String::new();
        match self {
            CraneliftLoweringError::InvalidIrType { ty } => {
                push_str(&mut s, "IrType '");
                push_str(&mut s, ty.as_str());
                push_str(&mut s, "' has no Cranelift equivalent");
            },
            CraneliftLoweringError::UnsupportedInstruction { inst, context } => {
                push_str(&mut s, "unsupported instruction '");
                push_str(&mut s, inst.as_str());
                push_str(&mut s, "': ");
                push_str(&mut s, context.as_str());
            },
            CraneliftLoweringError::UnsupportedTerminator { term, context } => {
                push_str(&mut s, "unsupported terminator '");
                push_str(&mut s, term.as_str());
                push_str(&mut s, "': ");
                push_str(&mut s, context.as_str());
            },
            CraneliftLoweringError::FunctionLoweringFailed { function, reason } => {
                push_str(&mut s, "failed to lower function '");
                push_str(&mut s, function.as_str());
                push_str(&mut s, "': ");
                push_str(&mut s, reason.as_str());
            },
        }
        proof {
            assert(s@ =~= message_of(*self));
        }
        s
    }
}

/// Lower one instruction. No instruction is lowered yet: each yields the
/// unsupported-instruction error naming it, with its operands.
pub fn lower_instruction(inst: &IrInst) -> (r: Result<(), CraneliftLoweringError>)
    ensures
        r matches Err(e) && is_inst_error(e, *inst),
{
    let name = match inst {
        IrInst::ConstInt { .. } => "ConstInt",
        IrInst::ConstFloat { .. } => "ConstFloat",
        IrInst::SsaBind { .. } => "SsaBind",
        IrInst::Binary { .. } => "Binary",
        IrInst::Compare { .. } => "Compare",
        IrInst::Call { .. } => "Call",
        IrInst::Cast { .. } => "Cast",
        IrInst::Alloca { .. } => "Alloca",
        IrInst::PtrOffset { .. } => "PtrOffset",
        IrInst::PtrAdd { .. } => "PtrAdd",
        IrInst::Load { .. } => "Load",
        IrInst::Store { .. } => "Store",
    };
    Err(
        CraneliftLoweringError::UnsupportedInstruction {
            inst: String::from_str(name),
            context: render_inst_context(inst),
        },
    )
}

/// Lower one terminator. No terminator is lowered yet: each yields the
/// unsupported-terminator error naming it, with its operands.
pub fn lower_terminator(term: &IrTerminator) -> (r: Result<(), CraneliftLoweringError>)
    ensures
        r matches Err(e) && is_term_error(e, *term),
{
    let name = match term {
        IrTerminator::Jump { .. } => "Jump",
        IrTerminator::Branch { .. } => "Branch",
        IrTerminator::Return { .. } => "Return",
    };
    Err(
        CraneliftLoweringError::UnsupportedTerminator {
            term: String::from_str(name),
            context: render_term_context(term),
        },
    )
}

/// Lower a block: its instructions in order, then its terminator; stops at
/// the first error.
pub fn lower_block(block: &IrBlock) -> (r: Result<(), CraneliftLoweringError>)
    ensures
        r matches Err(e) && is_block_error(e, *block),
{
    let mut i: usize = 0;
    while i < block.insts.len()
        invariant
            i <= block.insts@.len(),
            i == 0,
        decreases block.insts@.len() - i,
    {
        lower_instruction(&block.insts[i])?;
        i = i + 1;
    }
    lower_terminator(&block.term)
}

/// Lower a function: its blocks in order; stops at the first error.
pub fn lower_function(function: &IrFunction) -> (r: Result<(), CraneliftLoweringError>)
    ensures
        function.blocks@.len() == 0 ==> r is Ok,
        function.blocks@.len() > 0 ==> (r matches Err(e) && is_block_error(e, function.blocks@[0])),
{
    let mut i: usize = 0;
    while i < function.blocks.len()
        invariant
            i <= function.blocks@.len(),
            i == 0,
        decreases function.blocks@.len() - i,
    {
        lower_block(&function.blocks[i])?;
        i = i + 1;
    }
    Ok(())
}

proof fn lemma_block_message(e: CraneliftLoweringError, b: IrBlock)
    requires
        is_block_error(e, b),
    ensures
        message_of(e) == block_message(b),
{
}

/// Walk every function of `module` through the lowering skeleton. The
/// first failure is returned wrapped with the name of the function it
/// occurred in; a function without blocks cannot be lowered either, so
/// `Ok(())` comes only for a module with no functions.
pub fn lower_module(module: &IrModule) -> (r: Result<(), CraneliftLoweringError>)
    ensures
        module.functions@.len() == 0 ==> r is Ok,
        module.functions@.len() > 0 ==> (r matches Err(
            CraneliftLoweringError::FunctionLoweringFailed { function, reason },
        ) && function@ == module.functions@[0].name@ && reason@ == function_reason(module.functions@[0])),
{
    if module.functions.len() == 0 {
        return Ok(());
    }
    let function = &module.functions[0];
    if function.blocks.len() == 0 {
        let reason = "function has no blocks".to_string();
        proof {
            reveal_strlit("function has no blocks");
        }
        return Err(
            CraneliftLoweringError::FunctionLoweringFailed { function: function.name.clone(), reason },
        );
    }
    match lower_function(function) {
        Ok(()) => Ok(()),
        Err(e) => {
            proof {
                lemma_block_message(e, function.blocks@[0]);
            }
            Err(CraneliftLoweringError::FunctionLoweringFailed { function: function.name.clone(), reason: e.message() })
        },
    }
}

impl CraneliftBackend {
    /// Run `module` on this backend: lower it, reporting a failure as its
    /// message.
    pub fn execute(&self, module: &IrModule) -> (r: Result<(), String>)
        ensures
            module.functions@.len() == 0 ==> r is Ok,
            module.functions@.len() > 0 ==> (r matches Err(m) && m@ == "failed to lower function '"@
                + module.functions@[0].name@ + "': "@ + function_reason(module.functions@[0])),
    {
        match lower_module(module) {
            Ok(()) => Ok(()),
            Err(e) => Err(e.message()),
        }
    }
}

} // verus!
