//! The language front end.

pub mod agree;
pub mod analyze;
pub mod ast;
pub mod error;
pub mod fold;
pub mod irgen;
pub mod lower;
pub mod shape;
pub mod symtable;
pub mod typeck;
pub mod types;
pub mod value;
