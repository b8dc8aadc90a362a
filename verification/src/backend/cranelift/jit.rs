//! Just-in-time execution through Cranelift.
use vstd::prelude::*;
use crate::ir::types::IrModule;

verus! {

/// Compile and run `ir` in process. Not available yet: always refuses with
/// a message that says so.
pub fn run_jit(ir: &IrModule) -> (r: Result<(), String>)
    ensures
        r matches Err(m) && m@ == "Cranelift JIT backend not implemented yet"@,
{
    Err(String::from_str("Cranelift JIT backend not implemented yet"))
}

} // verus!
