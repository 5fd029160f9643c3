use vstd::prelude::*;

use crate::lexer::Span;

verus! {

/// The closed set of lexical failures. Every variant but the last two
/// carries the span of the offending text.
#[derive(Clone, Copy, Debug, PartialEq, Eq, Structural)]
pub enum Error {
    /// A character literal that is opened and closed at once (`''`).
    EmptyChar(Span),
    /// A raw character in a literal that is not ASCII.
    CharNotAscii(Span),
    /// A backslash in a literal followed by a letter that names no escape.
    InvalidEscape(Span),
    /// A literal value that is not followed by its closing quote.
    CharNotTerminated(Span),
    /// An opening quote that is the last character of the input.
    CharExpected(Span),
    /// The input ends right after a backslash in a literal.
    UnexpectedEndOfInput,
    /// A later phase found no entry function; never raised while scanning.
    MainNotFound,
}

} // verus!
