//! Layout modelling of in-memory structures and a small address expression
//! language used to locate them.

pub mod arith;
pub mod token;
pub mod lexer;
pub mod error;
pub mod ast;
pub mod parser;
pub mod field;
pub mod padding;
pub mod class;
pub mod class_list;
pub mod generator;
pub mod memory;
pub mod address;
pub mod session;
