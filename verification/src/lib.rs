//! Front end of a compiler for a small C-like language: types, syntax tree,
//! scoped symbol table, semantic analysis with constant folding, and lowering
//! to a block-structured intermediate representation.

pub mod arith;
pub mod frontend;
pub mod ir;
