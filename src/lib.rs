//! Front end of the exo language: lexer, recursive-descent parser and semantic analysis.
//!
//! Source text becomes a token sequence (`lexer`), then a syntax tree of top-level
//! functions (`parser`), then a type-checked tree (`semantic`). Each stage is specified
//! by spec functions (`grammar`, `syntax`, `semantic`) and proved against them.
pub mod text;
pub mod token;
pub mod grammar;
pub mod decimal;
pub mod scanner;
pub mod lexer;
pub mod errors;
pub mod ast;
pub mod syntax;
pub mod parser;
pub mod semantic;
pub mod laws;
