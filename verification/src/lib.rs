//! A small compiler for C--, a restricted C-like language.
//!
//! Source text is parsed to a syntax tree, the tree is checked and lowered to
//! a listing of builder steps, and the listing is handed to the backend. A
//! tree can also be drawn as a graph for Graphviz.
pub mod text;
pub mod ast;
pub mod error;
pub mod ir;
pub mod scope;
pub mod lower;
pub mod codegen;
pub mod check;
pub mod ast_viz;
pub mod syntax;
pub mod parser;
pub mod stable;
pub mod sight;

pub use ast::{ASTInfo, Ast, Oprand, Type};
pub use ast_viz::DiGraph;
pub use codegen::CodeBuilder;
pub use error::{Error, ErrorType};
pub use parser::CParser;
