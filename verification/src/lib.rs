//! Cx: front end, IR, backend scaffolding and runtime support structures of
//! a small systems language built around arenas, handles and explicit moves.
pub mod arena;
pub mod backend;
pub mod handle;
pub mod interpreter;
pub mod operators;
pub mod ir;
pub mod text;
pub mod diagnostics;
pub mod diff_harness;
pub mod frontend;
pub mod runtime;
pub mod semantic_run;

