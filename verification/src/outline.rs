//! The outline of a module as the analyzer reads it: its declarations and
//! their names, each name with where it stands in the source.
use vstd::prelude::*;

verus! {

/// A half-open range of positions in the source.
pub struct Span {
    pub start: usize,
    pub end: usize,
}

impl From<crate::token::Span> for Span {
    fn from(span: crate::token::Span) -> (r: Self) {
        Self { start: span.start, end: span.end }
    }
}

impl vstd::std_specs::convert::FromSpecImpl<crate::token::Span> for Span {
    open spec fn obeys_from_spec() -> bool {
        true
    }

    open spec fn from_spec(span: crate::token::Span) -> Self {
        Self { start: span.start, end: span.end }
    }
}

pub struct Module {
    pub declarations: Vec<Decl>,
}

pub enum Decl {
    /// `fn name(params) ReturnType { body }`
    Fn(FnDecl),
}

pub struct FnDecl {
    pub signature: Signature,
}

pub struct Signature {
    pub name: Ident,
}

pub struct Ident {
    pub literal: String,
    pub span: Span,
}

} // verus!
