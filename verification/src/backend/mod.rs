//! Code-generation backends and backend selection.
pub mod cranelift;
pub mod llvm;

use vstd::prelude::*;
use crate::text::{chars_eq, chars_of};
use crate::frontend::semantic_types::SemanticProgram;
use crate::ir::types::IrModule;

verus! {

/// Which backend runs a program.
#[derive(Debug, Clone, Copy, PartialEq, Eq, Structural)]
pub enum BackendKind {
    Interpret,
    Cranelift,
    Llvm,
}

/// The characters of the `--backend=` flag prefix.
pub open spec fn backend_prefix() -> Seq<char> {
    seq!['-', '-', 'b', 'a', 'c', 'k', 'e', 'n', 'd', '=']
}

/// The backend a `--backend=` value selects: `interp`, `cranelift` or
/// `llvm`; anything else falls back to the interpreter.
pub open spec fn backend_named(raw: Seq<char>) -> BackendKind {
    if raw == seq!['i', 'n', 't', 'e', 'r', 'p'] {
        BackendKind::Interpret
    } else if raw == seq!['c', 'r', 'a', 'n', 'e', 'l', 'i', 'f', 't'] {
        BackendKind::Cranelift
    } else if raw == seq!['l', 'l', 'v', 'm'] {
        BackendKind::Llvm
    } else {
        BackendKind::Interpret
    }
}

/// Index of the first argument, at or after `from`, that starts with the
/// `--backend=` prefix.
pub open spec fn first_backend_flag(args: Seq<String>, from: int) -> Option<int>
    decreases args.len() - from,
{
    if from < 0 || from >= args.len() {
        None
    } else if backend_prefix().is_prefix_of(args[from]@) {
        Some(from)
    } else {
        first_backend_flag(args, from + 1)
    }
}

/// The backend the command line selects: the first `--backend=VALUE`
/// argument decides; without one, the interpreter.
pub open spec fn backend_for_args(args: Seq<String>) -> BackendKind {
    match first_backend_flag(args, 0) {
        Some(i) => backend_named(args[i]@.skip(backend_prefix().len() as int)),
        None => BackendKind::Interpret,
    }
}

/// Lower an analysed program to IR for a compiling backend.
pub fn lower_to_ir(program: &SemanticProgram) -> (m: IrModule)
    ensures
        m.debug_name@ == "cxir_v0"@,
        m.functions@.len() == 0,
{
    crate::ir::lower::lower_program(program)
}

/// Whether `p` is a prefix of `cs`.
pub fn has_prefix(cs: &Vec<char>, p: &Vec<char>) -> (r: bool)
    ensures
        r == p@.is_prefix_of(cs@),
{
    if p.len() > cs.len() {
        return false;
    }
    let mut i: usize = 0;
    while i < p.len()
        invariant
            p@.len() <= cs@.len(),
            i <= p@.len(),
            forall|j: int| 0 <= j < i ==> p@[j] == cs@[j],
        decreases p@.len() - i,
    {
        if p[i] != cs[i] {
            return false;
        }
        i = i + 1;
    }
    proof {
        assert(cs@.subrange(0, p@.len() as int) =~= p@);
    }
    true
}

/// Select the backend from the command-line arguments.
pub fn parse_backend_flag(args: &[String]) -> (k: BackendKind)
    ensures
        k == backend_for_args(args@),
{
    let prefix: Vec<char> = vec!['-', '-', 'b', 'a', 'c', 'k', 'e', 'n', 'd', '='];
    let interp: Vec<char> = vec!['i', 'n', 't', 'e', 'r', 'p'];
    let cranelift: Vec<char> = vec!['c', 'r', 'a', 'n', 'e', 'l', 'i', 'f', 't'];
    let llvm: Vec<char> = vec!['l', 'l', 'v', 'm'];
    proof {
        assert(prefix@ == backend_prefix());
        assert(interp@ == seq!['i', 'n', 't', 'e', 'r', 'p']);
        assert(cranelift@ == seq!['c', 'r', 'a', 'n', 'e', 'l', 'i', 'f', 't']);
        assert(llvm@ == seq!['l', 'l', 'v', 'm']);
    }
    let mut i: usize = 0;
    while i < args.len()
        invariant
            i <= args@.len(),
            prefix@ == backend_prefix(),
            interp@ == seq!['i', 'n', 't', 'e', 'r', 'p'],
            cranelift@ == seq!['c', 'r', 'a', 'n', 'e', 'l', 'i', 'f', 't'],
            llvm@ == seq!['l', 'l', 'v', 'm'],
            first_backend_flag(args@, 0) == first_backend_flag(args@, i as int),
        decreases args@.len() - i,
    {
        let arg = chars_of(args[i].as_str());
        if has_prefix(&arg, &prefix) {
            let raw: Vec<char> = crate::text::tail_from(&arg, prefix.len());
            if chars_eq(raw.as_slice(), interp.as_slice()) {
                return BackendKind::Interpret;
            } else if chars_eq(raw.as_slice(), cranelift.as_slice()) {
                return BackendKind::Cranelift;
            } else if chars_eq(raw.as_slice(), llvm.as_slice()) {
                return BackendKind::Llvm;
            } else {
                return BackendKind::Interpret;
            }
        }
        i = i + 1;
    }
    BackendKind::Interpret
}

} // verus!
