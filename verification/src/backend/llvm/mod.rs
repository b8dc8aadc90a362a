//! The LLVM backend (not implemented yet).
pub mod aot;

use vstd::prelude::*;
use crate::ir::types::IrModule;

verus! {

/// The LLVM backend.
pub struct LlvmBackend;

impl LlvmBackend {
    /// Run `module` on this backend. Not available yet: always refuses and
    /// points at the interpreter.
    pub fn execute(&self, module: &IrModule) -> (r: Result<(), String>)
        ensures
            r matches Err(m) && m@ == "LLVM backend not implemented yet; use --backend=interp"@,
    {
        Err(String::from_str("LLVM backend not implemented yet; use --backend=interp"))
    }
}

} // verus!
