//! Positioned, recoverable parse errors. Every failure carries the offset it
//! arose at; the enclosing grammar decides what to do with it, this crate
//! never recovers on its own.

use vstd::prelude::*;

verus! {

#[derive(Debug, PartialEq, Eq)]
pub enum ParseError {
    /// No grammar alternative matches at `offset`; `expected` names the
    /// construct the grammar was looking for.
    ExpectedConstruct { offset: usize, expected: &'static str },
    /// A group opener (generic list, argument list, tuple, record) at
    /// `offset` whose closer was never found.
    UnterminatedGroup { offset: usize },
    /// A record annotation redefines the field `name`; `offset` is the start
    /// of the second occurrence.
    DuplicateField { offset: usize, name: String },
    /// A tuple opener at `offset` closed again with zero elements.
    MalformedTuple { offset: usize },
}

pub type PyretResult<T> = Result<T, ParseError>;

impl ParseError {
    /// The offset the error is anchored at.
    pub open spec fn spec_offset(&self) -> int {
        match *self {
            ParseError::ExpectedConstruct { offset, .. } => offset as int,
            ParseError::UnterminatedGroup { offset } => offset as int,
            ParseError::DuplicateField { offset, .. } => offset as int,
            ParseError::MalformedTuple { offset } => offset as int,
        }
    }

    pub fn offset(&self) -> (r: usize)
        ensures
            r as int == self.spec_offset(),
    {
        match *self {
            ParseError::ExpectedConstruct { offset, .. } => offset,
            ParseError::UnterminatedGroup { offset } => offset,
            ParseError::DuplicateField { offset, .. } => offset,
            ParseError::MalformedTuple { offset } => offset,
        }
    }
}

} // verus!
