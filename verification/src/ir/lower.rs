//! Lowering of the analysed program to IR.
use vstd::prelude::*;
use crate::frontend::semantic_types::SemanticProgram;
use crate::ir::types::IrModule;

verus! {

/// Lower an analysed program. Function lowering is not implemented yet: the
/// module produced is named `cxir_v0` and holds no function.
pub fn lower_program(program: &SemanticProgram) -> (m: IrModule)
    ensures
        m.debug_name@ == "cxir_v0"@,
        m.functions@.len() == 0,
{
    IrModule { debug_name: String::from_str("cxir_v0"), functions: Vec::new() }
}

} // verus!
