//! Cerune: a small statically typed language with several code generators.
//!
//! This crate holds the verified front-end pieces: the numeric type model,
//! the source AST, generic instantiation, array lengths named by constants,
//! enum lowering, array iteration expansion, constant dependency ordering,
//! module name resolution and the command-line option grammar; and, for the
//! code generators, the checked program they read, the declarations that C
//! needs (types, array structs, definition order, names), the integer
//! literals of generated C, the type and operator mapping and the stack
//! slots of LLVM, and the memory layout of WebAssembly.
pub mod text;
pub mod types;
pub mod source;
pub mod diagnostic;
pub mod ast;
pub mod bytecode;
pub mod embedding;
pub mod cli;
pub mod iteration;
pub mod constants;
mod copy;
pub mod array_lengths;
pub mod generics;
pub mod modules;
pub mod c_literals;
pub mod ir;
pub mod c_lower;
pub mod llvm_lower;
pub mod wat_lower;
pub mod sums;
