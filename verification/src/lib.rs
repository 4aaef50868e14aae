//! rivet: a small C compiler targeting RV32IM assembly.
//!
//! The pipeline is lexer -> preprocessor -> parser -> semantic checker -> code generator.
pub mod source;
pub mod ast;
pub mod typed_ast;
pub mod text;
pub mod lexer;
pub mod lex_rules;
pub mod preprocess;
pub mod grammar;
pub mod parser;
pub mod sema;
pub mod codegen;
pub mod driver;
