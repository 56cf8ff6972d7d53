//! Compile-time errors with the source range they point at.
use vstd::prelude::*;
use crate::source::Span;

verus! {

/// A compile-time error: a message and, where known, the range it points at.
#[derive(Debug, Clone, PartialEq, Eq)]
pub struct Diagnostic {
    pub message: String,
    pub span: Option<Span>,
}

impl Diagnostic {
    /// An error at `span`.
    pub fn new(message: String, span: Span) -> (r: Diagnostic)
        ensures
            r.message@ == message@,
            r.span == Some(span),
    {
        Diagnostic { message, span: Some(span) }
    }

    /// The error's text.
    pub fn message(&self) -> (r: &str)
        ensures
            r@ == self.message@,
    {
        self.message.as_str()
    }

    /// The range the error points at, if it has one.
    pub fn primary_span(&self) -> (r: Option<Span>)
        ensures
            r == self.span,
    {
        self.span
    }
}

} // verus!
