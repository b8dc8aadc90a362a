use cranelift_codegen::ir::types;
use cx::backend::cranelift::ir_type_to_cranelift;
use cx::backend::cranelift::{
    lower_instruction, lower_module, lower_terminator, CraneliftBackend, CraneliftLoweringError,
};
use cx::backend::llvm::LlvmBackend;
use cx::ir::types::{BlockId, IrBinOp, IrBlock, IrFunction, IrInst, IrModule, IrRelOp, IrTerminator, IrType, ValueId};

fn one_function_module(name: &str, term: IrTerminator) -> IrModule {
    IrModule {
        debug_name: "test".to_string(),
        functions: vec![IrFunction {
            name: name.to_string(),
            params: vec![],
            return_ty: None,
            blocks: vec![IrBlock {
                id: BlockId(0),
                params: vec![],
                insts: vec![],
                term,
            }],
        }],
    }
}

#[test]
fn lower_module_empty_module_succeeds() {
    let module = IrModule {
        debug_name: "empty".to_string(),
        functions: vec![],
    };
    assert!(lower_module(&module).is_ok());
}

#[test]
fn lower_module_wraps_inner_error_with_function_name() {
    let module = one_function_module("my_fn", IrTerminator::Return { value: None });
    let err = lower_module(&module).unwrap_err();
    assert!(
        matches!(
            &err,
            CraneliftLoweringError::FunctionLoweringFailed { function, .. }
            if function == "my_fn"
        ),
        "expected FunctionLoweringFailed for 'my_fn', got: {err:?}"
    );
}

#[test]
fn terminator_return_produces_named_unsupported_error() {
    let term = IrTerminator::Return { value: None };
    let err = lower_terminator(&term).unwrap_err();
    assert!(
        matches!(&err, CraneliftLoweringError::UnsupportedTerminator { term, .. } if term == "Return"),
        "expected UnsupportedTerminator 'Return', got: {err:?}"
    );
}

#[test]
fn terminator_jump_produces_named_unsupported_error() {
    let term = IrTerminator::Jump { target: BlockId(1), args: vec![] };
    let err = lower_terminator(&term).unwrap_err();
    assert!(
        matches!(&err, CraneliftLoweringError::UnsupportedTerminator { term, .. } if term == "Jump"),
        "expected UnsupportedTerminator 'Jump', got: {err:?}"
    );
}

#[test]
fn terminator_branch_produces_named_unsupported_error() {
    let term = IrTerminator::Branch {
        cond: ValueId(0),
        then_block: BlockId(1),
        then_args: vec![],
        else_block: BlockId(2),
        else_args: vec![],
    };
    let err = lower_terminator(&term).unwrap_err();
    assert!(
        matches!(&err, CraneliftLoweringError::UnsupportedTerminator { term, .. } if term == "Branch"),
        "expected UnsupportedTerminator 'Branch', got: {err:?}"
    );
}

#[test]
fn instruction_const_int_produces_named_error() {
    let inst = IrInst::ConstInt { dst: ValueId(0), ty: IrType::I32, value: 42 };
    let err = lower_instruction(&inst).unwrap_err();
    assert!(
        matches!(&err, CraneliftLoweringError::UnsupportedInstruction { inst, .. } if inst == "ConstInt"),
        "expected UnsupportedInstruction 'ConstInt', got: {err:?}"
    );
}

#[test]
fn instruction_const_float_produces_named_error() {
    let inst = IrInst::ConstFloat { dst: ValueId(1), bits: 3.14f64.to_bits() };
    let err = lower_instruction(&inst).unwrap_err();
    assert!(
        matches!(&err, CraneliftLoweringError::UnsupportedInstruction { inst, .. } if inst == "ConstFloat"),
        "expected UnsupportedInstruction 'ConstFloat', got: {err:?}"
    );
}

#[test]
fn instruction_ssa_bind_produces_named_error() {
    let inst = IrInst::SsaBind { dst: ValueId(2), ty: IrType::I64, src: ValueId(1) };
    let err = lower_instruction(&inst).unwrap_err();
    assert!(
        matches!(&err, CraneliftLoweringError::UnsupportedInstruction { inst, .. } if inst == "SsaBind"),
        "expected UnsupportedInstruction 'SsaBind', got: {err:?}"
    );
}

#[test]
fn instruction_load_produces_named_error() {
    let inst = IrInst::Load { dst: ValueId(3), ty: IrType::I64, ptr: ValueId(0) };
    let err = lower_instruction(&inst).unwrap_err();
    assert!(
        matches!(&err, CraneliftLoweringError::UnsupportedInstruction { inst, .. } if inst == "Load"),
        "expected UnsupportedInstruction 'Load', got: {err:?}"
    );
}

#[test]
fn instruction_store_produces_named_error() {
    let inst = IrInst::Store { ptr: ValueId(0), value: ValueId(1) };
    let err = lower_instruction(&inst).unwrap_err();
    assert!(
        matches!(&err, CraneliftLoweringError::UnsupportedInstruction { inst, .. } if inst == "Store"),
        "expected UnsupportedInstruction 'Store', got: {err:?}"
    );
}

#[test]
fn instruction_alloca_produces_named_error() {
    let inst = IrInst::Alloca { dst: ValueId(0), size: 8, align: 8 };
    let err = lower_instruction(&inst).unwrap_err();
    assert!(
        matches!(&err, CraneliftLoweringError::UnsupportedInstruction { inst, .. } if inst == "Alloca"),
        "expected UnsupportedInstruction 'Alloca', got: {err:?}"
    );
}

#[test]
fn instruction_ptr_offset_produces_named_error() {
    let inst = IrInst::PtrOffset { dst: ValueId(1), base: ValueId(0), offset: 8 };
    let err = lower_instruction(&inst).unwrap_err();
    assert!(
        matches!(&err, CraneliftLoweringError::UnsupportedInstruction { inst, .. } if inst == "PtrOffset"),
        "expected UnsupportedInstruction 'PtrOffset', got: {err:?}"
    );
}

#[test]
fn instruction_ptr_add_produces_named_error() {
    let inst = IrInst::PtrAdd { dst: ValueId(2), base: ValueId(0), offset: ValueId(1) };
    let err = lower_instruction(&inst).unwrap_err();
    assert!(
        matches!(&err, CraneliftLoweringError::UnsupportedInstruction { inst, .. } if inst == "PtrAdd"),
        "expected UnsupportedInstruction 'PtrAdd', got: {err:?}"
    );
}

#[test]
fn error_display_contains_instruction_name() {
    let err = CraneliftLoweringError::UnsupportedInstruction {
        inst: "Load".to_string(),
        context: "dst=ValueId(1) ty=I64 ptr=ValueId(0)".to_string(),
    };
    let msg = err.message();
    assert!(msg.contains("Load"), "display should mention 'Load': {msg}");
}

#[test]
fn error_display_contains_terminator_name() {
    let err = CraneliftLoweringError::UnsupportedTerminator {
        term: "Return".to_string(),
        context: "value=None".to_string(),
    };
    let msg = err.message();
    assert!(msg.contains("Return"), "display should mention 'Return': {msg}");
}

#[test]
fn error_display_function_failed_contains_name() {
    let err = CraneliftLoweringError::FunctionLoweringFailed {
        function: "compute".to_string(),
        reason: "unsupported terminator 'Return': value=None".to_string(),
    };
    let msg = err.message();
    assert!(msg.contains("compute"), "display should mention 'compute': {msg}");
}

// ── Exact contexts and messages ─────────────────────────────────────────────

fn context_of(inst: IrInst) -> String {
    match lower_instruction(&inst).unwrap_err() {
        CraneliftLoweringError::UnsupportedInstruction { context, .. } => context,
        other => panic!("unexpected {other:?}"),
    }
}

#[test]
fn instruction_contexts_render_operands() {
    assert_eq!(
        context_of(IrInst::Load { dst: ValueId(1), ty: IrType::I64, ptr: ValueId(0) }),
        "dst=ValueId(1) ty=I64 ptr=ValueId(0)"
    );
    assert_eq!(
        context_of(IrInst::ConstInt { dst: ValueId(0), ty: IrType::I32, value: -42 }),
        "dst=ValueId(0) ty=I32 value=-42"
    );
    assert_eq!(
        context_of(IrInst::ConstFloat { dst: ValueId(1), bits: 1.0f64.to_bits() }),
        "dst=ValueId(1) bits=0x3ff0000000000000"
    );
    assert_eq!(
        context_of(IrInst::Binary { dst: ValueId(9), op: IrBinOp::Add, ty: IrType::I8, lhs: ValueId(10), rhs: ValueId(11) }),
        "dst=ValueId(9) op=Add ty=I8 lhs=ValueId(10) rhs=ValueId(11)"
    );
    assert_eq!(
        context_of(IrInst::Compare { dst: ValueId(2), op: IrRelOp::Le, lhs: ValueId(0), rhs: ValueId(1) }),
        "dst=ValueId(2) op=Le lhs=ValueId(0) rhs=ValueId(1)"
    );
    assert_eq!(
        context_of(IrInst::Call {
            dst: Some(ValueId(5)),
            callee: "f".to_string(),
            args: vec![ValueId(1), ValueId(2)],
            return_ty: Some(IrType::TBool),
        }),
        "callee=f args=[ValueId(1), ValueId(2)] dst=Some(ValueId(5)) return_ty=Some(TBool)"
    );
    assert_eq!(
        context_of(IrInst::Cast { dst: ValueId(3), from: IrType::I32, to: IrType::F64, value: ValueId(2) }),
        "dst=ValueId(3) from=I32 to=F64 value=ValueId(2)"
    );
    assert_eq!(
        context_of(IrInst::Alloca { dst: ValueId(0), size: 16, align: 8 }),
        "dst=ValueId(0) size=16 align=8"
    );
    assert_eq!(
        context_of(IrInst::PtrOffset { dst: ValueId(1), base: ValueId(0), offset: -8 }),
        "dst=ValueId(1) base=ValueId(0) offset=-8"
    );
}

#[test]
fn terminator_contexts_render_operands() {
    let err = lower_terminator(&IrTerminator::Branch {
        cond: ValueId(0),
        then_block: BlockId(1),
        then_args: vec![ValueId(4)],
        else_block: BlockId(2),
        else_args: vec![],
    })
    .unwrap_err();
    assert_eq!(
        err.message(),
        "unsupported terminator 'Branch': cond=ValueId(0) then=BlockId(1) then_args=[ValueId(4)] else=BlockId(2) else_args=[]"
    );
    let err = lower_terminator(&IrTerminator::Return { value: Some(ValueId(7)) }).unwrap_err();
    assert_eq!(err.message(), "unsupported terminator 'Return': value=Some(ValueId(7))");
}

#[test]
fn first_instruction_of_first_function_is_reported() {
    let mut module = one_function_module("second", IrTerminator::Return { value: None });
    module.functions[0].blocks[0].insts.push(IrInst::Store { ptr: ValueId(0), value: ValueId(1) });
    let err = lower_module(&module).unwrap_err();
    assert_eq!(
        err.message(),
        "failed to lower function 'second': unsupported instruction 'Store': ptr=ValueId(0) value=ValueId(1)"
    );
    assert_eq!(
        CraneliftBackend.execute(&module).unwrap_err(),
        "failed to lower function 'second': unsupported instruction 'Store': ptr=ValueId(0) value=ValueId(1)"
    );
}

#[test]
fn function_without_blocks_is_not_lowered() {
    let mut module = one_function_module("second", IrTerminator::Return { value: None });
    module.functions.insert(
        0,
        IrFunction { name: "f".to_string(), params: vec![], return_ty: None, blocks: vec![] },
    );
    let err = lower_module(&module).unwrap_err();
    assert_eq!(err.message(), "failed to lower function 'f': function has no blocks");
    let empty = IrModule { debug_name: "empty".to_string(), functions: vec![] };
    assert!(lower_module(&empty).is_ok());
}

#[test]
fn invalid_type_message() {
    let err = CraneliftLoweringError::InvalidIrType { ty: "Ptr".to_string() };
    assert_eq!(err.message(), "IrType 'Ptr' has no Cranelift equivalent");
}

#[test]
fn unimplemented_backends_refuse() {
    let module = IrModule { debug_name: "m".to_string(), functions: vec![] };
    assert!(CraneliftBackend.execute(&module).is_ok());
    assert_eq!(
        LlvmBackend.execute(&module).unwrap_err(),
        "LLVM backend not implemented yet; use --backend=interp"
    );
    assert_eq!(
        cx::backend::cranelift::aot::emit_object(&module).unwrap_err(),
        "Cranelift AOT backend not implemented yet"
    );
    assert_eq!(
        cx::backend::cranelift::jit::run_jit(&module).unwrap_err(),
        "Cranelift JIT backend not implemented yet"
    );
    assert_eq!(
        cx::backend::llvm::aot::emit_object(&module).unwrap_err(),
        "LLVM AOT backend not implemented yet"
    );
}

#[test]
fn ir_type_to_cranelift_maps_all_scalar_integer_types() {
    assert_eq!(ir_type_to_cranelift(&IrType::I8).unwrap(), types::I8);
    assert_eq!(ir_type_to_cranelift(&IrType::I16).unwrap(), types::I16);
    assert_eq!(ir_type_to_cranelift(&IrType::I32).unwrap(), types::I32);
    assert_eq!(ir_type_to_cranelift(&IrType::I64).unwrap(), types::I64);
    assert_eq!(ir_type_to_cranelift(&IrType::I128).unwrap(), types::I128);
}

#[test]
fn ir_type_to_cranelift_maps_f64() {
    assert_eq!(ir_type_to_cranelift(&IrType::F64).unwrap(), types::F64);
}

#[test]
fn ir_type_to_cranelift_bool_and_tbool_map_to_i8() {
    assert_eq!(ir_type_to_cranelift(&IrType::Bool).unwrap(), types::I8);
    assert_eq!(ir_type_to_cranelift(&IrType::TBool).unwrap(), types::I8);
}

#[test]
fn ir_type_to_cranelift_ptr_maps_to_i64() {
    assert_eq!(ir_type_to_cranelift(&IrType::Ptr).unwrap(), types::I64);
}
