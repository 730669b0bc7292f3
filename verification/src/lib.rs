//! The semantic core of a compiler for a small statically typed language
//! with unique and shared pointers, tagged unions, interfaces and
//! generators.
//!
//! - `id`, `provenance`: identifiers and places in a source text.
//! - `tokenizer`: from the characters of a source text to its tokens.
//! - `parser`: what the parser hands over of the declarations of a file,
//!   and the cells that are filled for its nodes.
//! - `types`: the types of expressions and the declared types.
//! - `declaration_context`: the two passes that give every declaration
//!   its identifier and fill it in, imports, and the operations that the
//!   compiler provides on collections.
//! - `typecheck`: the type rules.
//! - `hir`: the conversions that a typed tree is given.
//! - `linear_ir`: the layout of types in memory, the nodes of the linear
//!   code, and the code that makes room for one more element in an array.

pub mod declaration_context;
pub mod hir;
pub mod id;
pub mod linear_ir;
pub mod parser;
pub mod provenance;
pub mod tokenizer;
pub mod typecheck;
pub mod types;
