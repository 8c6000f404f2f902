//! A small tree-walking interpreter for a dynamically typed scripting
//! language: a parser from source text to an abstract syntax tree, and an
//! evaluator that runs the tree against a mutable variable environment,
//! collecting output lines and an exit status.

pub mod ast;
pub mod data;
pub mod parser;
pub mod eval;
pub mod laws;
pub mod semantics;
pub mod strmap;

pub use ast::Ast;
pub use data::Data;
pub use data::DataS;
pub use eval::Program;
pub use eval::RunOutcome;
pub use parser::parse_code;
pub use semantics::EvalError;
