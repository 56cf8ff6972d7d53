//! Programs made of several files: the units that loading produces, and
//! how their definitions are joined into one program.
pub mod resolve;

use vstd::prelude::*;
use crate::ast::Program;
use crate::source::{SourceId, Span};

verus! {

/// One loaded source file: its parsed program, the definitions it makes
/// public (each with the range of its name), and its import aliases with
/// the position of the unit that each names.
pub struct Unit {
    pub id: SourceId,
    pub program: Program,
    pub exports: Vec<(String, Span)>,
    pub imports: Vec<(String, usize)>,
}

} // verus!
