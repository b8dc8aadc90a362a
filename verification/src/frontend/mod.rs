//! Front end: syntax tree, lexer support, semantic types and analysis.
pub mod ast;
pub mod laws;
pub mod lexer;
pub mod model;
pub mod parser;
pub mod rules;
pub mod semantic;
pub mod semantic_types;
pub mod cost;
