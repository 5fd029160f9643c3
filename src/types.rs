use vstd::prelude::*;

use crate::lexer::Span;

verus! {

/// A value together with the source extent it was read from.
#[derive(Clone, Debug, PartialEq)]
pub struct Spanned<T> {
    pub node: T,
    pub span: Span,
}

/// A type written in the source, with its span.
pub type Type = Spanned<TypeKind>;

/// The shapes a type can take; kept for the type-checking phase.
#[derive(Debug)]
pub enum TypeKind {
    Bool,
    Int,
    Char,
    Array(Box<Type>),
}

} // verus!
