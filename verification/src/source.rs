//! Source positions that every stage keeps for diagnostics.
use vstd::prelude::*;

verus! {

/// Identifies one loaded source file.
#[derive(Debug, Clone, Copy, PartialEq, Eq, Structural, Hash)]
pub struct SourceId {
    pub index: usize,
}

impl SourceId {
    /// The position of the file in load order.
    pub fn index(self) -> (r: usize)
        ensures
            r == self.index,
    {
        self.index
    }
}

/// A byte range `start..end` in one source file.
#[derive(Debug, Clone, Copy, PartialEq, Eq, Structural, Hash)]
pub struct Span {
    pub source: SourceId,
    pub start: usize,
    pub end: usize,
}

impl Span {
    /// The file that the range lies in.
    pub fn source_id(self) -> (r: SourceId)
        ensures
            r == self.source,
    {
        self.source
    }

    /// The first byte of the range.
    pub fn start(self) -> (r: usize)
        ensures
            r == self.start,
    {
        self.start
    }

    /// One past the last byte of the range.
    pub fn end(self) -> (r: usize)
        ensures
            r == self.end,
    {
        self.end
    }
}

/// How a conversion was written in the source: as a type call `T(x)` or as
/// a named conversion with an explicit target, such as `convert<T>(x)`.
#[derive(Debug, Clone, Copy, PartialEq, Eq, Structural, Hash)]
pub enum ConversionSyntax {
    TypeCall,
    Explicit,
}

} // verus!
