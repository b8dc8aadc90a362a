use cx::ir::types::{BlockId, BlockParam, IrBlock, IrFunction, IrModule, IrTerminator, IrType, ValueId};

#[test]
fn ir_module_can_hold_one_function() {
    let module = IrModule {
        debug_name: "m".to_string(),
        functions: vec![IrFunction {
            name: "f".to_string(),
            params: vec![],
            return_ty: None,
            blocks: vec![IrBlock {
                id: BlockId(0),
                params: vec![],
                insts: vec![],
                term: IrTerminator::Return { value: None },
            }],
        }],
    };

    assert_eq!(module.functions.len(), 1);
    assert_eq!(module.functions[0].name, "f");
}

#[test]
fn block_params_are_representable() {
    let block = IrBlock {
        id: BlockId(7),
        params: vec![BlockParam {
            value: ValueId(3),
            ty: IrType::I64,
        }],
        insts: vec![],
        term: IrTerminator::Return { value: None },
    };

    assert_eq!(block.params.len(), 1);
    assert_eq!(block.params[0].value, ValueId(3));
    assert_eq!(block.params[0].ty, IrType::I64);
}
