//! The part of a compiled bytecode program that embedding reads: its
//! function table, in function-id order.
use vstd::prelude::*;

verus! {

/// One compiled function; its position in the table is its id.
#[derive(Debug, Clone, PartialEq, Eq)]
pub struct BytecodeFunction {
    pub name: String,
}

/// A compiled program.
#[derive(Debug, Clone, PartialEq, Eq)]
pub struct BytecodeProgram {
    pub functions: Vec<BytecodeFunction>,
}

} // verus!
