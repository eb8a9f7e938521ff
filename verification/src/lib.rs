//! A compiler for the JapalityBean language: lexer, parser, type checker,
//! LLVM text lowering, formatter and a native x86-64 Linux backend.
pub mod text;
pub mod ast;
pub mod diag;
pub mod lexer;
pub mod types;
pub mod expr;
pub mod lines;
pub mod parser;
pub mod typeck;
pub mod ir;
pub mod pretty;
pub mod json;
pub mod driver;
pub mod native;
