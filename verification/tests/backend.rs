use cx::backend::{lower_to_ir, parse_backend_flag, BackendKind};
use cx::frontend::semantic_types::SemanticProgram;

fn args(list: &[&str]) -> Vec<String> {
    list.iter().map(|s| s.to_string()).collect()
}

#[test]
fn backend_flag_selects_backend() {
    assert_eq!(parse_backend_flag(&args(&[])), BackendKind::Interpret);
    assert_eq!(parse_backend_flag(&args(&["prog.cx"])), BackendKind::Interpret);
    assert_eq!(parse_backend_flag(&args(&["--backend=cranelift", "p.cx"])), BackendKind::Cranelift);
    assert_eq!(parse_backend_flag(&args(&["p.cx", "--backend=llvm"])), BackendKind::Llvm);
    assert_eq!(parse_backend_flag(&args(&["--backend=interp"])), BackendKind::Interpret);
    assert_eq!(parse_backend_flag(&args(&["--backend=gcc"])), BackendKind::Interpret);
    assert_eq!(
        parse_backend_flag(&args(&["--backend=llvm", "--backend=cranelift"])),
        BackendKind::Llvm
    );
    assert_eq!(parse_backend_flag(&args(&["--backend", "llvm"])), BackendKind::Interpret);
}

#[test]
fn lowering_yields_empty_module() {
    let program = SemanticProgram { stmts: vec![], enums: vec![] };
    let m = lower_to_ir(&program);
    assert_eq!(m.debug_name, "cxir_v0");
    assert!(m.functions.is_empty());
}
