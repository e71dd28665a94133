//! The error type: a kind, an optional byte span, and an optionally
//! attached copy of the source text.

use vstd::prelude::*;

use crate::Span;

verus! {

/// The exact reason why parsing of a recipe failed.
#[derive(Debug, Clone, Copy, PartialEq, Eq, Structural)]
pub enum ErrorKind {
    ExpectedTitle,
    ExpectedHorizontalLine,
    MultipleTagsSections,
    MultipleYieldsSections,
    MultipleDescriptionSections,
    EmptyIngredient,
    EmptyIngredientGroup,
}

/// Returned when parsing a recipe was not successful.
///
/// `span` is the byte range where the failure was detected, or `None` when
/// the input ended before anything could be blamed.
#[derive(Debug, Clone, PartialEq)]
pub struct Error {
    pub kind: ErrorKind,
    pub span: Option<Span>,
    pub source_text: Option<String>,
}

/// Model of an [`Error`]: its kind and its span.
pub ghost struct ErrorM {
    pub kind: ErrorKind,
    pub span: Option<Span>,
}

impl Error {
    /// The source text attached to this error, if any, as a character
    /// sequence.
    pub closed spec fn src_view(&self) -> Option<Seq<char>> {
        match self.source_text {
            Option::Some(s) => Option::Some(s@),
            Option::None => Option::None,
        }
    }

    pub fn new(kind: ErrorKind, span: Option<Span>) -> (e: Error)
        ensures
            e.kind == kind,
            e.span == span,
            e.src_view() is None,
    {
        Error { kind, span, source_text: None }
    }

    /// The markdown source of the recipe that could not be parsed.
    pub fn src(&self) -> (r: &str)
        requires
            self.src_view() is Some,
        ensures
            r@ == self.src_view()->0,
    {
        match &self.source_text {
            Some(s) => s.as_str(),
            None => "",
        }
    }

    /// Attaches the source text to the error.
    pub fn with_src(self, src: String) -> (e: Error)
        ensures
            e.kind == self.kind,
            e.span == self.span,
            e.src_view() == Some(src@),
    {
        Error { kind: self.kind, span: self.span, source_text: Some(src) }
    }
}

/// An error value carries the modelled kind and span, with the given source
/// text attached.
pub open spec fn error_matches(e: Error, m: ErrorM, src: Seq<char>) -> bool {
    &&& e.kind == m.kind
    &&& e.span == m.span
    &&& e.src_view() == Some(src)
}

} // verus!
