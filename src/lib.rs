//! A compiler for a small finite-state-machine language: rules such as
//! `*Idle + Start = Running` are tokenized, parsed, checked for duplicate
//! (state, event) pairs and lowered to an index table whose evaluator
//! applies the first matching rule in declaration order. The table can also
//! be emitted as Rust source.
pub mod ast;
pub mod lexer;
pub mod parser;
pub mod model;
pub mod validate;
pub mod machine;
pub mod compile;
pub mod emit;
pub mod pipeline;
pub mod laws;
