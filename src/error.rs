//! The errors that a caller of the parser and the printer is handed.
use crate::parser::ParseError;
use crate::syntax::Span;
use vstd::prelude::*;

verus! {

/// The closed set of failures: none is recovered from at this layer.
#[derive(Clone, PartialEq, Eq, Debug)]
pub enum InterTypeError {
    /// A name that could not be resolved, with the span that points at it.
    UnresolvedName { span: Span },
    /// The source could not be read; the message of the failure.
    IOError(String),
    /// The grammar rejected the input: the first failure, as it came.
    ParseError(ParseError),
}

} // verus!
