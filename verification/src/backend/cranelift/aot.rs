//! Ahead-of-time object emission through Cranelift.
use vstd::prelude::*;
use crate::ir::types::IrModule;

verus! {

/// Emit an object file for `ir`. Not available yet: always refuses with a
/// message that says so.
pub fn emit_object(ir: &IrModule) -> (r: Result<(), String>)
    ensures
        r matches Err(m) && m@ == "Cranelift AOT backend not implemented yet"@,
{
    Err(String::from_str("Cranelift AOT backend not implemented yet"))
}

} // verus!
